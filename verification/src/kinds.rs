//! The closed vocabularies of the system: acceleration stacks, inference engines, weight formats
//! and the roles of tied files, with the labels under which they are stored and shown.

use crate::outside;
use crate::text;
use vstd::prelude::*;
use vstd::utf8::*;

verus! {

/// GPU acceleration stack of a managed VM. Drives which engine images apply and how GPU stats
/// are read (sysfs for ROCm, nvidia-smi for CUDA).
#[derive(Debug, Clone, Copy, PartialEq, Eq, Structural)]
pub enum AccelKind {
    Rocm,
    Cuda,
    Cpu,
}

/// Inference engine a profile serves with.
#[derive(Debug, Clone, Copy, PartialEq, Eq, Structural)]
pub enum EngineKind {
    LlamaCpp,
    Vllm,
    Ollama,
    TabbyApi,
    Custom,
}

/// On-disk weight format.
#[derive(Debug, Clone, Copy, PartialEq, Eq, Structural)]
pub enum ModelFormat {
    Gguf,
    Safetensors,
    /// A HuggingFace repo cached under hf-cache/ (a directory, not a single file).
    HfRepo,
    Other,
}

/// Role of a small text file bound to a profile.
#[derive(Debug, Clone, Copy, PartialEq, Eq, Structural)]
pub enum TiedFileRole {
    ChatTemplate,
    Grammar,
    /// Arbitrary engine config (json/yaml/toml).
    Config,
    Other,
}

// ---------------------------------------------------------------------------
// Acceleration stacks
// ---------------------------------------------------------------------------

impl AccelKind {
    /// The label of the stack.
    pub open spec fn label(self) -> Seq<char> {
        match self {
            AccelKind::Rocm => "rocm"@,
            AccelKind::Cuda => "cuda"@,
            AccelKind::Cpu => "cpu"@,
        }
    }

    /// The stack that a lower-case name stands for: the label or a vendor's name, and the CPU for
    /// anything else.
    pub open spec fn named(lower: Seq<char>) -> AccelKind {
        if lower == "rocm"@ || lower == "amd"@ || lower == "hip"@ {
            AccelKind::Rocm
        } else if lower == "cuda"@ || lower == "nvidia"@ || lower == "nv"@ {
            AccelKind::Cuda
        } else {
            AccelKind::Cpu
        }
    }

    pub fn as_str(&self) -> (r: &'static str)
        ensures
            r@ == self.label(),
    {
        match self {
            AccelKind::Rocm => "rocm",
            AccelKind::Cuda => "cuda",
            AccelKind::Cpu => "cpu",
        }
    }

    /// The stack that `s` names, whatever its case and the white space around it.
    pub fn from_str_loose(s: &str) -> (r: AccelKind)
        ensures
            r == Self::named(outside::lowercase(text::trimmed(s@))),
            is_ascii_chars(text::trimmed(s@)) ==> r == Self::named(
                text::lower_ascii(text::trimmed(s@)),
            ),
    {
        let t: String = text::trim(s);
        let lower: String = outside::to_lowercase(t.as_str());
        Self::from_lowercase(lower.as_str())
    }

    /// The stack that a lower-case name stands for.
    pub fn from_lowercase(lower: &str) -> (r: AccelKind)
        ensures
            r == Self::named(lower@),
    {
        if text::same(lower, "rocm") || text::same(lower, "amd") || text::same(lower, "hip") {
            AccelKind::Rocm
        } else if text::same(lower, "cuda") || text::same(lower, "nvidia") || text::same(
            lower,
            "nv",
        ) {
            AccelKind::Cuda
        } else {
            AccelKind::Cpu
        }
    }
}

/// The label of a stack names that stack.
pub proof fn accel_label_names_itself(a: AccelKind)
    ensures
        AccelKind::named(a.label()) == a,
{
    reveal_strlit("rocm");
    reveal_strlit("amd");
    reveal_strlit("hip");
    reveal_strlit("cuda");
    reveal_strlit("nvidia");
    reveal_strlit("nv");
    reveal_strlit("cpu");
    assert("cpu"@[0] == 'c' && "cpu"@[1] == 'p' && "cuda"@[1] == 'u');
    assert("rocm"@[0] == 'r' && "amd"@[0] == 'a' && "hip"@[0] == 'h' && "nvidia"@[0] == 'n');
}

// ---------------------------------------------------------------------------
// Engines
// ---------------------------------------------------------------------------

impl EngineKind {
    /// The label of the engine.
    pub open spec fn label(self) -> Seq<char> {
        match self {
            EngineKind::LlamaCpp => "llama.cpp"@,
            EngineKind::Vllm => "vllm"@,
            EngineKind::Ollama => "ollama"@,
            EngineKind::TabbyApi => "tabbyAPI"@,
            EngineKind::Custom => "custom"@,
        }
    }

    /// The engine with that label; `Custom` where no other engine has it.
    pub open spec fn labelled(s: Seq<char>) -> EngineKind {
        if s == "llama.cpp"@ {
            EngineKind::LlamaCpp
        } else if s == "vllm"@ {
            EngineKind::Vllm
        } else if s == "ollama"@ {
            EngineKind::Ollama
        } else if s == "tabbyAPI"@ {
            EngineKind::TabbyApi
        } else {
            EngineKind::Custom
        }
    }

    /// The pictogram of the engine.
    pub open spec fn icon(self) -> Seq<char> {
        match self {
            EngineKind::LlamaCpp => "🦙"@,
            EngineKind::Vllm => "⚡"@,
            EngineKind::Ollama => "🐘"@,
            EngineKind::TabbyApi => "🐈"@,
            EngineKind::Custom => "🧩"@,
        }
    }

    pub fn as_str(&self) -> (r: &'static str)
        ensures
            r@ == self.label(),
    {
        match self {
            EngineKind::LlamaCpp => "llama.cpp",
            EngineKind::Vllm => "vllm",
            EngineKind::Ollama => "ollama",
            EngineKind::TabbyApi => "tabbyAPI",
            EngineKind::Custom => "custom",
        }
    }
}

impl Default for EngineKind {
    fn default() -> (r: EngineKind)
        ensures
            r == EngineKind::LlamaCpp,
    {
        EngineKind::LlamaCpp
    }
}

/// The engines in the order in which a form offers them.
pub const ALL_ENGINES: [EngineKind; 5] = [
    EngineKind::LlamaCpp,
    EngineKind::Vllm,
    EngineKind::Ollama,
    EngineKind::TabbyApi,
    EngineKind::Custom,
];

/// Pictogram for an engine, used on profile chips.
pub fn engine_icon(engine: &EngineKind) -> (r: &'static str)
    ensures
        r@ == engine.icon(),
{
    match engine {
        EngineKind::LlamaCpp => "🦙",
        EngineKind::Vllm => "⚡",
        EngineKind::Ollama => "🐘",
        EngineKind::TabbyApi => "🐈",
        EngineKind::Custom => "🧩",
    }
}

/// The engine with the label `s`.
pub fn engine_from_label(s: &str) -> (r: EngineKind)
    ensures
        r == EngineKind::labelled(s@),
{
    if text::same(s, "llama.cpp") {
        EngineKind::LlamaCpp
    } else if text::same(s, "vllm") {
        EngineKind::Vllm
    } else if text::same(s, "ollama") {
        EngineKind::Ollama
    } else if text::same(s, "tabbyAPI") {
        EngineKind::TabbyApi
    } else {
        EngineKind::Custom
    }
}

/// An engine comes back from its label.
pub proof fn engine_label_round_trip(e: EngineKind)
    ensures
        EngineKind::labelled(e.label()) == e,
{
    reveal_strlit("llama.cpp");
    reveal_strlit("vllm");
    reveal_strlit("ollama");
    reveal_strlit("tabbyAPI");
    reveal_strlit("custom");
    assert("llama.cpp"@[0] == 'l' && "vllm"@[0] == 'v' && "ollama"@[0] == 'o');
    assert("tabbyAPI"@[0] == 't' && "custom"@[0] == 'c');
}

/// Every engine is offered.
pub proof fn every_engine_is_offered(e: EngineKind)
    ensures
        ALL_ENGINES@.contains(e),
{
    let i: int = match e {
        EngineKind::LlamaCpp => 0,
        EngineKind::Vllm => 1,
        EngineKind::Ollama => 2,
        EngineKind::TabbyApi => 3,
        EngineKind::Custom => 4,
    };
    assert(ALL_ENGINES@[i] == e);
}

// ---------------------------------------------------------------------------
// Formats
// ---------------------------------------------------------------------------

impl ModelFormat {
    /// The name of the variant, as a table shows it.
    pub open spec fn title(self) -> Seq<char> {
        match self {
            ModelFormat::Gguf => "Gguf"@,
            ModelFormat::Safetensors => "Safetensors"@,
            ModelFormat::HfRepo => "HfRepo"@,
            ModelFormat::Other => "Other"@,
        }
    }
}

/// What the format column of a model shows.
pub fn format_title(format: Option<ModelFormat>) -> (r: String)
    ensures
        r@ == match format {
            Some(f) => f.title(),
            None => Seq::empty(),
        },
{
    match format {
        Some(ModelFormat::Gguf) => "Gguf".to_owned(),
        Some(ModelFormat::Safetensors) => "Safetensors".to_owned(),
        Some(ModelFormat::HfRepo) => "HfRepo".to_owned(),
        Some(ModelFormat::Other) => "Other".to_owned(),
        None => String::new(),
    }
}

// ---------------------------------------------------------------------------
// Roles of tied files
// ---------------------------------------------------------------------------

impl TiedFileRole {
    /// The label of the role.
    pub open spec fn label(self) -> Seq<char> {
        match self {
            TiedFileRole::ChatTemplate => "chat_template"@,
            TiedFileRole::Grammar => "grammar"@,
            TiedFileRole::Config => "config"@,
            TiedFileRole::Other => "other"@,
        }
    }

    /// The role with that label; `Other` where no other role has it.
    pub open spec fn labelled(s: Seq<char>) -> TiedFileRole {
        if s == "chat_template"@ {
            TiedFileRole::ChatTemplate
        } else if s == "grammar"@ {
            TiedFileRole::Grammar
        } else if s == "config"@ {
            TiedFileRole::Config
        } else {
            TiedFileRole::Other
        }
    }

    pub fn as_str(&self) -> (r: &'static str)
        ensures
            r@ == self.label(),
    {
        match self {
            TiedFileRole::ChatTemplate => "chat_template",
            TiedFileRole::Grammar => "grammar",
            TiedFileRole::Config => "config",
            TiedFileRole::Other => "other",
        }
    }
}

/// The stored form of a role.
pub fn role_str(r: &TiedFileRole) -> (s: String)
    ensures
        s@ == r.label(),
{
    r.as_str().to_owned()
}

/// The role that a stored form stands for.
pub fn role_from(s: &str) -> (r: TiedFileRole)
    ensures
        r == TiedFileRole::labelled(s@),
{
    if text::same(s, "chat_template") {
        TiedFileRole::ChatTemplate
    } else if text::same(s, "grammar") {
        TiedFileRole::Grammar
    } else if text::same(s, "config") {
        TiedFileRole::Config
    } else {
        TiedFileRole::Other
    }
}

/// A role comes back from its label.
pub proof fn role_label_round_trip(r: TiedFileRole)
    ensures
        TiedFileRole::labelled(r.label()) == r,
{
    reveal_strlit("chat_template");
    reveal_strlit("grammar");
    reveal_strlit("config");
    reveal_strlit("other");
    assert("chat_template"@[1] == 'h' && "grammar"@[1] == 'r' && "config"@[1] == 'o');
    assert("other"@[1] == 't');
}

/// Which names stand for which stack: its own label and the names of its vendor, and nothing else for
/// one with a GPU.
pub proof fn vendors_name_their_stack(lower: Seq<char>)
    ensures
        AccelKind::named("amd"@) == AccelKind::Rocm,
        AccelKind::named("hip"@) == AccelKind::Rocm,
        AccelKind::named("nvidia"@) == AccelKind::Cuda,
        AccelKind::named("nv"@) == AccelKind::Cuda,
        AccelKind::named(lower) == AccelKind::Rocm <==> seq!["rocm"@, "amd"@, "hip"@].contains(
            lower,
        ),
        AccelKind::named(lower) == AccelKind::Cuda <==> seq!["cuda"@, "nvidia"@, "nv"@].contains(
            lower,
        ),
{
    reveal_strlit("rocm");
    reveal_strlit("amd");
    reveal_strlit("hip");
    reveal_strlit("cuda");
    reveal_strlit("nvidia");
    reveal_strlit("nv");
    assert("cuda"@[0] == 'c' && "rocm"@[0] == 'r' && "amd"@[0] == 'a' && "hip"@[0] == 'h'
        && "nvidia"@[0] == 'n' && "nv"@[0] == 'n');
    let a = seq!["rocm"@, "amd"@, "hip"@];
    let b = seq!["cuda"@, "nvidia"@, "nv"@];
    assert(a[0] == "rocm"@ && a[1] == "amd"@ && a[2] == "hip"@);
    assert(b[0] == "cuda"@ && b[1] == "nvidia"@ && b[2] == "nv"@);
    if a.contains(lower) {
        let k = choose|k: int| 0 <= k < a.len() && a[k] == lower;
        assert(k == 0 || k == 1 || k == 2);
    }
    if b.contains(lower) {
        let k = choose|k: int| 0 <= k < b.len() && b[k] == lower;
        assert(k == 0 || k == 1 || k == 2);
    }
}

/// The labels under which the kinds are stored and sent are these, and different kinds have different
/// labels.
pub proof fn labels_tell_kinds_apart(a: AccelKind, b: AccelKind, e: EngineKind, f: EngineKind)
    ensures
        a.label() == b.label() ==> a == b,
        e.label() == f.label() ==> e == f,
        AccelKind::Rocm.label() == "rocm"@ && AccelKind::Cuda.label() == "cuda"@
            && AccelKind::Cpu.label() == "cpu"@,
        EngineKind::LlamaCpp.label() == "llama.cpp"@ && EngineKind::Vllm.label() == "vllm"@
            && EngineKind::Ollama.label() == "ollama"@ && EngineKind::TabbyApi.label()
            == "tabbyAPI"@ && EngineKind::Custom.label() == "custom"@,
        TiedFileRole::ChatTemplate.label() == "chat_template"@ && TiedFileRole::Grammar.label()
            == "grammar"@ && TiedFileRole::Config.label() == "config"@
            && TiedFileRole::Other.label() == "other"@,
{
    accel_label_names_itself(a);
    accel_label_names_itself(b);
    engine_label_round_trip(e);
    engine_label_round_trip(f);
}

/// Each engine has a pictogram of its own, and each format is shown by its name.
pub proof fn kinds_are_shown_apart(e: EngineKind, f: EngineKind)
    ensures
        e.icon() == f.icon() ==> e == f,
        EngineKind::LlamaCpp.icon() == "🦙"@ && EngineKind::Vllm.icon() == "⚡"@
            && EngineKind::Ollama.icon() == "🐘"@ && EngineKind::TabbyApi.icon() == "🐈"@
            && EngineKind::Custom.icon() == "🧩"@,
        ModelFormat::Gguf.title() == "Gguf"@ && ModelFormat::Safetensors.title()
            == "Safetensors"@ && ModelFormat::HfRepo.title() == "HfRepo"@
            && ModelFormat::Other.title() == "Other"@,
{
    reveal_strlit("🦙");
    reveal_strlit("⚡");
    reveal_strlit("🐘");
    reveal_strlit("🐈");
    reveal_strlit("🧩");
    assert("🦙"@[0] == '🦙' && "⚡"@[0] == '⚡' && "🐘"@[0] == '🐘' && "🐈"@[0] == '🐈'
        && "🧩"@[0] == '🧩');
}

}
