//! What the hub's pages show and how their forms change a draft.

use crate::kinds;
use crate::kinds::{EngineKind, TiedFileRole};
use crate::numbers;
use crate::outside;
use crate::records::{
    ActivateResult, GpuStats, ModelFile, ModelFileView, ServiceProfile, ServiceProfileView,
    TiedFile, TiedFileView, VmTarget, VmTargetView,
};
use crate::search;
use crate::text;
use vstd::prelude::*;
use vstd::string::*;

verus! {

// ---------------------------------------------------------------------------
// Pages
// ---------------------------------------------------------------------------

/// The pages of the hub.
#[derive(Debug, Clone, Copy, PartialEq, Eq, Structural)]
pub enum MainView {
    Models,
    Profiles,
    Files,
    System,
}

/// The VM to select once the targets are known: the first, unless one is selected already.
pub fn preselect(selected: &str, targets: &Vec<VmTarget>) -> (r: Option<String>)
    ensures
        text::opt_text(r) == if selected@.len() == 0 && targets@.len() > 0 {
            Some(targets@[0].id@)
        } else {
            None
        },
{
    if selected.is_empty() && targets.len() > 0 {
        Some(targets[0].id.clone())
    } else {
        None
    }
}

/// The style of a filter button.
pub fn filter_class(active: bool) -> (r: &'static str)
    ensures
        r@ == if active {
            "btn-nebula"@
        } else {
            "btn-cosmic"@
        },
{
    if active {
        "btn-nebula"
    } else {
        "btn-cosmic"
    }
}

/// The style of a status badge.
pub fn badge_class(kind: &str) -> (r: &'static str)
    ensures
        r@ == if kind@ == "good"@ {
            "badge badge-nebula"@
        } else if kind@ == "bad"@ {
            "badge"@
        } else {
            "badge badge-method"@
        },
{
    proof {
        reveal_strlit("good");
        reveal_strlit("warn");
        reveal_strlit("bad");
        assert("good"@.len() == 4 && "warn"@.len() == 4 && "bad"@.len() == 3);
        assert("good"@[0] != "warn"@[0]);
    }
    if text::same(kind, "good") {
        "badge badge-nebula"
    } else if text::same(kind, "warn") {
        "badge badge-method"
    } else if text::same(kind, "bad") {
        "badge"
    } else {
        "badge badge-method"
    }
}

/// The style of a log level.
pub fn level_class(level: &str) -> (r: &'static str)
    ensures
        r@ == if level@ == "ERROR"@ {
            "text-warning-red font-semibold"@
        } else {
            "text-aurora-purple"@
        },
{
    if text::same(level, "ERROR") {
        "text-warning-red font-semibold"
    } else {
        "text-aurora-purple"
    }
}

/// The style of a container's state.
pub fn state_class(state: &str) -> (r: &'static str)
    ensures
        r@ == if state@ == "running"@ {
            "text-alien-green"@
        } else {
            "text-stardust"@
        },
{
    if text::same(state, "running") {
        "text-alien-green"
    } else {
        "text-stardust"
    }
}

/// The style of a profile's card.
pub fn card_class(active: bool) -> (r: &'static str)
    ensures
        r@ == if active {
            "card-cosmic p-5 border-2 border-nebula-purple"@
        } else {
            "card-cosmic p-5"@
        },
{
    if active {
        "card-cosmic p-5 border-2 border-nebula-purple"
    } else {
        "card-cosmic p-5"
    }
}

// ---------------------------------------------------------------------------
// Models
// ---------------------------------------------------------------------------

/// Whether a name in lower case is shown for a query in lower case.
pub open spec fn matches_query(lower: Seq<char>, query: Seq<char>) -> bool {
    query.len() == 0 || search::has_text(lower, query)
}

/// Whether a name in lower case is shown for a query in lower case.
pub fn name_matches(lower: &str, query: &str) -> (r: bool)
    ensures
        r == matches_query(lower@, query@),
{
    query.is_empty() || search::contains(lower, query)
}

/// The models that are shown for a query in lower case, in order.
pub open spec fn shown_models(models: Seq<ModelFileView>, query: Seq<char>) -> Seq<ModelFileView>
    decreases models.len(),
{
    if models.len() == 0 {
        Seq::empty()
    } else if matches_query(outside::lowercase(models.last().filename), query) {
        shown_models(models.drop_last(), query).push(models.last())
    } else {
        shown_models(models.drop_last(), query)
    }
}

/// The models whose names hold what was typed, whatever the case of its letters; all of them
/// where nothing was typed.
pub fn filter_models(models: Vec<ModelFile>, typed: &str) -> (r: Vec<ModelFile>)
    ensures
        r@.map_values(|m: ModelFile| m@) == shown_models(
            models@.map_values(|m: ModelFile| m@),
            outside::lowercase(typed@),
        ),
{
    let query: String = outside::to_lowercase(typed);
    let ghost given = models@;
    let ghost all = given.map_values(|m: ModelFile| m@);
    let mut out: Vec<ModelFile> = Vec::new();
    assert(out@.map_values(|m: ModelFile| m@) =~= shown_models(all.take(0), query@));
    for m in it: models
        invariant
            it.seq() == given,
            all == given.map_values(|m: ModelFile| m@),
            out@.map_values(|m: ModelFile| m@) == shown_models(
                all.take(it.index() as int),
                query@,
            ),
    {
        let ghost n = it.index() as int;
        let ghost before = out@.map_values(|m: ModelFile| m@);
        let ghost shown = m@;
        assert(all.take(n + 1).drop_last() =~= all.take(n));
        assert(all.take(n + 1).last() == shown);
        let lower: String = outside::to_lowercase(m.filename.as_str());
        if name_matches(lower.as_str(), query.as_str()) {
            out.push(m);
            assert(out@.map_values(|m: ModelFile| m@) =~= before.push(shown));
        }
    }
    assert(all.take(all.len() as int) =~= all);
    out
}

/// A typed text without the white space around it; `None` where nothing is left.
pub open spec fn typed_text(typed: Seq<char>) -> Option<Seq<char>> {
    if text::trimmed(typed).len() == 0 {
        None
    } else {
        Some(text::trimmed(typed))
    }
}

fn typed_or_none(typed: &str) -> (r: Option<String>)
    ensures
        text::opt_text(r) == typed_text(typed@),
{
    let t: String = text::trim(typed);
    if t.as_str().is_empty() {
        None
    } else {
        Some(t)
    }
}

/// The repo and the file that the download form asks for; nothing where no repo was typed.
pub fn download_form(repo: &str, file: &str) -> (r: Option<(String, Option<String>)>)
    ensures
        match r {
            Some((a, b)) => typed_text(repo@) == Some(a@) && text::opt_text(b) == typed_text(
                file@,
            ),
            None => typed_text(repo@) is None,
        },
{
    match typed_or_none(repo) {
        Some(a) => Some((a, typed_or_none(file))),
        None => None,
    }
}

// ---------------------------------------------------------------------------
// Profiles
// ---------------------------------------------------------------------------

/// The contents of a list of profiles.
pub open spec fn profile_views(v: Seq<ServiceProfile>) -> Seq<ServiceProfileView> {
    v.map_values(|p: ServiceProfile| p@)
}

/// The profiles of a VM, in order.
pub open spec fn profiles_for(profiles: Seq<ServiceProfileView>, vm: Seq<char>) -> Seq<
    ServiceProfileView,
>
    decreases profiles.len(),
{
    if profiles.len() == 0 {
        Seq::empty()
    } else if profiles.last().vm == vm {
        profiles_for(profiles.drop_last(), vm).push(profiles.last())
    } else {
        profiles_for(profiles.drop_last(), vm)
    }
}

/// The profiles of a VM.
pub fn profiles_of(profiles: Vec<ServiceProfile>, vm: &str) -> (r: Vec<ServiceProfile>)
    ensures
        profile_views(r@) == profiles_for(profile_views(profiles@), vm@),
{
    let ghost given = profiles@;
    let ghost all = profile_views(given);
    let mut out: Vec<ServiceProfile> = Vec::new();
    assert(profile_views(out@) =~= profiles_for(all.take(0), vm@));
    for p in it: profiles
        invariant
            it.seq() == given,
            all == profile_views(given),
            profile_views(out@) == profiles_for(all.take(it.index() as int), vm@),
    {
        let ghost n = it.index() as int;
        let ghost before = profile_views(out@);
        let ghost shown = p@;
        assert(all.take(n + 1).drop_last() =~= all.take(n));
        assert(all.take(n + 1).last() == shown);
        if text::same(p.vm.as_str(), vm) {
            out.push(p);
            assert(profile_views(out@) =~= before.push(shown));
        }
    }
    assert(all.take(all.len() as int) =~= all);
    out
}

/// Whether a profile is the active one; without an active one the empty id counts.
pub fn is_active(p: &ServiceProfile, active: &Option<String>) -> (r: bool)
    ensures
        r == (p@.id == match active {
            Some(id) => id@,
            None => Seq::empty(),
        }),
{
    match active {
        Some(id) => text::same(p.id.as_str(), id.as_str()),
        None => {
            assert(p@.id.len() == 0 ==> p@.id =~= Seq::<char>::empty());
            p.id.as_str().is_empty()
        },
    }
}

/// How a published port is shown.
pub open spec fn port_text(port: Option<u16>) -> Seq<char> {
    match port {
        Some(n) => ":"@ + numbers::decimal(n as nat),
        None => Seq::empty(),
    }
}

/// The line that tells what a profile serves.
pub fn profile_line(p: &ServiceProfile) -> (r: String)
    ensures
        r@ == p@.engine.label() + " · "@ + p@.model_ref + port_text(p@.host_port),
{
    let mut s: String = p.engine.as_str().to_owned();
    s.append(" · ");
    s.append(p.model_ref.as_str());
    match p.host_port {
        Some(n) => {
            s.append(":");
            s.append(numbers::decimal_of(n as u64).as_str());
        },
        None => {
            assert(s@ =~= s@ + Seq::<char>::empty());
        },
    }
    s
}

/// The notes of a profile, where it has any.
pub fn shown_notes(p: &ServiceProfile) -> (r: Option<String>)
    ensures
        text::opt_text(r) == match p@.notes {
            Some(n) => if n.len() > 0 {
                Some(n)
            } else {
                None
            },
            None => None,
        },
{
    match &p.notes {
        Some(n) => if n.as_str().is_empty() {
            None
        } else {
            Some(n.clone())
        },
        None => None,
    }
}

/// The log level and the log entry for the result of an activation.
pub fn activation_entry(r: &ActivateResult) -> (e: (&'static str, String))
    ensures
        e.0@ == if r.ok {
            "INFO"@
        } else {
            "ERROR"@
        },
        e.1@ == "Activate: "@ + r.message@ + " (health_ok="@ + (if r.health_ok {
            "true"@
        } else {
            "false"@
        }) + ")"@,
{
    let mut m: String = "Activate: ".to_owned();
    m.append(r.message.as_str());
    m.append(" (health_ok=");
    m.append(
        if r.health_ok {
            "true"
        } else {
            "false"
        },
    );
    m.append(")");
    let level: &'static str = if r.ok {
        "INFO"
    } else {
        "ERROR"
    };
    (level, m)
}

/// A profile that was not edited yet.
pub open spec fn blank_profile(vm: Seq<char>) -> ServiceProfileView {
    ServiceProfileView {
        id: Seq::empty(),
        name: Seq::empty(),
        vm: vm,
        engine: EngineKind::LlamaCpp,
        model_ref: Seq::empty(),
        model_dir_name: Seq::empty(),
        service_name: Seq::empty(),
        container_name: Seq::empty(),
        host_port: None,
        compose_fragment: Seq::empty(),
        dockerfile_name: None,
        dockerfile: None,
        tied_files: Seq::empty(),
        notes: None,
        known_good: false,
        created_at: None,
        updated_at: None,
    }
}

/// A new draft for a VM.
pub fn new_profile(vm: &str) -> (r: ServiceProfile)
    ensures
        r@ == blank_profile(vm@),
{
    let p: ServiceProfile = ServiceProfile {
        id: String::new(),
        name: String::new(),
        vm: vm.to_owned(),
        engine: EngineKind::LlamaCpp,
        model_ref: String::new(),
        model_dir_name: String::new(),
        service_name: String::new(),
        container_name: String::new(),
        host_port: None,
        compose_fragment: String::new(),
        dockerfile_name: None,
        dockerfile: None,
        tied_files: Vec::new(),
        notes: None,
        known_good: false,
        created_at: None,
        updated_at: None,
    };
    assert(p@ =~= blank_profile(vm@));
    p
}

/// What keeps a draft from being saved.
pub fn check_profile(p: &ServiceProfile) -> (r: Option<&'static str>)
    ensures
        text::opt_str(r) == if text::trimmed(p@.name).len() == 0 {
            Some("Name is required."@)
        } else if text::trimmed(p@.service_name).len() == 0 {
            Some("Service name is required."@)
        } else {
            None
        },
{
    if text::trim(p.name.as_str()).as_str().is_empty() {
        Some("Name is required.")
    } else if text::trim(p.service_name.as_str()).as_str().is_empty() {
        Some("Service name is required.")
    } else {
        None
    }
}

/// The text of a field that may be left out; `None` where nothing was typed.
pub open spec fn field_text(typed: Seq<char>) -> Option<Seq<char>> {
    if typed.len() == 0 {
        None
    } else {
        Some(typed)
    }
}

fn field_or_none(typed: String) -> (r: Option<String>)
    ensures
        text::opt_text(r) == field_text(typed@),
{
    if typed.as_str().is_empty() {
        None
    } else {
        Some(typed)
    }
}

/// A profile in the editor whose model is typed, and whether the directory of its tied files was
/// named after the model there: while it was, or while there is none, it is named after what is
/// typed.
pub open spec fn with_model_ref(p: ServiceProfileView, named: bool, typed: Seq<char>) -> (
    ServiceProfileView,
    bool,
) {
    if named || p.model_dir_name.len() == 0 {
        (
            ServiceProfileView {
                model_ref: typed,
                model_dir_name: search::after_last(typed, '/'),
                ..p
            },
            true,
        )
    } else {
        (ServiceProfileView { model_ref: typed, ..p }, false)
    }
}

/// A profile in the editor once the field of its model has held these texts, one after the other.
pub open spec fn after_typing(p: ServiceProfileView, named: bool, typed: Seq<Seq<char>>) -> (
    ServiceProfileView,
    bool,
)
    decreases typed.len(),
{
    if typed.len() == 0 {
        (p, named)
    } else {
        let before = after_typing(p, named, typed.drop_last());
        with_model_ref(before.0, before.1, typed.last())
    }
}

/// Sets the model, as it stands in its field after a keystroke. `named` tells whether the
/// directory of the tied files was named after the model in this editor; then it follows the
/// model, and so does one that is empty. Any other directory stays.
pub fn set_model_ref(p: &mut ServiceProfile, named: &mut bool, typed: String)
    ensures
        (final(p)@, *final(named)) == with_model_ref(old(p)@, *old(named), typed@),
{
    if *named || p.model_dir_name.as_str().is_empty() {
        p.model_dir_name = search::last_piece(typed.as_str(), '/');
        *named = true;
    }
    p.model_ref = typed;
}

/// Sets the directory of the tied files by hand: it no longer follows the model.
pub fn set_model_dir(p: &mut ServiceProfile, named: &mut bool, typed: String)
    ensures
        final(p)@ == (ServiceProfileView { model_dir_name: typed@, ..old(p)@ }),
        !*final(named),
{
    p.model_dir_name = typed;
    *named = false;
}

/// However a model is typed into a profile that has no directory for its tied files, the directory
/// ends up with the last component of what was typed last.
pub proof fn directory_is_named_after_what_was_typed(
    p: ServiceProfileView,
    named: bool,
    typed: Seq<Seq<char>>,
)
    requires
        named || p.model_dir_name.len() == 0,
        typed.len() > 0,
    ensures
        after_typing(p, named, typed) == (
            ServiceProfileView {
                model_ref: typed.last(),
                model_dir_name: search::after_last(typed.last(), '/'),
                ..p
            },
            true,
        ),
    decreases typed.len(),
{
    let front = typed.drop_last();
    if front.len() > 0 {
        directory_is_named_after_what_was_typed(p, named, front);
    } else {
        assert(after_typing(p, named, front) == (p, named));
    }
}

/// However a model is typed, a directory that was stored with the profile or set by hand stays.
pub proof fn chosen_directory_stays(p: ServiceProfileView, typed: Seq<Seq<char>>)
    requires
        p.model_dir_name.len() > 0,
    ensures
        after_typing(p, false, typed).0.model_dir_name == p.model_dir_name,
        !after_typing(p, false, typed).1,
    decreases typed.len(),
{
    if typed.len() > 0 {
        chosen_directory_stays(p, typed.drop_last());
    }
}

/// Sets the published port; none where the text is no port.
pub fn set_host_port(p: &mut ServiceProfile, typed: &str)
    ensures
        final(p)@ == (ServiceProfileView {
            host_port: match numbers::parsed(text::trimmed(typed@), u16::MAX as nat) {
                Some(n) => Some(n as u16),
                None => None,
            },
            ..old(p)@
        }),
{
    p.host_port = numbers::parse_u16(text::trim(typed).as_str());
}

/// Sets the name of the Dockerfile; none where nothing was typed.
pub fn set_dockerfile_name(p: &mut ServiceProfile, typed: String)
    ensures
        final(p)@ == (ServiceProfileView { dockerfile_name: field_text(typed@), ..old(p)@ }),
{
    p.dockerfile_name = field_or_none(typed);
}

/// Sets the notes; none where nothing was typed.
pub fn set_notes(p: &mut ServiceProfile, typed: String)
    ensures
        final(p)@ == (ServiceProfileView { notes: field_text(typed@), ..old(p)@ }),
{
    p.notes = field_or_none(typed);
}

/// Sets the engine by its label.
pub fn set_engine(p: &mut ServiceProfile, label: &str)
    ensures
        final(p)@ == (ServiceProfileView { engine: EngineKind::labelled(label@), ..old(p)@ }),
{
    p.engine = kinds::engine_from_label(label);
}

// ---------------------------------------------------------------------------
// Tied files
// ---------------------------------------------------------------------------

/// The contents of a list of tied files.
pub open spec fn tied_views(v: Seq<TiedFile>) -> Seq<TiedFileView> {
    v.map_values(|f: TiedFile| f@)
}

/// Adds an empty chat template.
pub fn add_tied_file(files: &mut Vec<TiedFile>)
    ensures
        tied_views(final(files)@) == tied_views(old(files)@).push(
            TiedFileView {
                role: TiedFileRole::ChatTemplate,
                filename: Seq::empty(),
                content: Seq::empty(),
            },
        ),
{
    let f: TiedFile = TiedFile {
        role: TiedFileRole::ChatTemplate,
        filename: String::new(),
        content: String::new(),
    };
    let ghost before = tied_views(files@);
    let ghost shown = f@;
    files.push(f);
    assert(tied_views(files@) =~= before.push(shown));
}

/// Removes a tied file, where there is one at that place.
pub fn remove_tied_file(files: &mut Vec<TiedFile>, i: usize)
    ensures
        tied_views(final(files)@) == if i < old(files)@.len() {
            tied_views(old(files)@).remove(i as int)
        } else {
            tied_views(old(files)@)
        },
{
    let ghost before = tied_views(files@);
    if i < files.len() {
        let gone: TiedFile = files.remove(i);
        assert(tied_views(files@) =~= before.remove(i as int));
    }
}

/// The change of one field of a tied file.
#[derive(Debug, PartialEq)]
pub enum TiedEdit {
    /// The role, by its label.
    Role(String),
    Filename(String),
    Content(String),
}

/// A tied file after a change.
pub open spec fn edited(f: TiedFileView, edit: TiedEdit) -> TiedFileView {
    match edit {
        TiedEdit::Role(label) => TiedFileView { role: TiedFileRole::labelled(label@), ..f },
        TiedEdit::Filename(name) => TiedFileView { filename: name@, ..f },
        TiedEdit::Content(content) => TiedFileView { content: content@, ..f },
    }
}

/// Changes a tied file, where there is one at that place.
pub fn edit_tied_file(files: &mut Vec<TiedFile>, i: usize, edit: TiedEdit)
    ensures
        tied_views(final(files)@) == if i < old(files)@.len() {
            tied_views(old(files)@).update(i as int, edited(old(files)@[i as int]@, edit))
        } else {
            tied_views(old(files)@)
        },
{
    if i < files.len() {
        let ghost before = tied_views(files@);
        let ghost was = files@[i as int]@;
        let old_file: &TiedFile = &files[i];
        let file: TiedFile = match edit {
            TiedEdit::Role(label) => TiedFile {
                role: kinds::role_from(label.as_str()),
                filename: old_file.filename.clone(),
                content: old_file.content.clone(),
            },
            TiedEdit::Filename(name) => TiedFile {
                role: old_file.role,
                filename: name,
                content: old_file.content.clone(),
            },
            TiedEdit::Content(content) => TiedFile {
                role: old_file.role,
                filename: old_file.filename.clone(),
                content,
            },
        };
        let ghost shown = file@;
        assert(shown =~= edited(was, edit));
        files.set(i, file);
        assert(tied_views(files@) =~= before.update(i as int, shown));
    }
}

/// Changing or removing one tied file leaves the others as they are.
pub proof fn other_tied_files_stay(files: Seq<TiedFileView>, i: int, j: int, f: TiedFileView)
    requires
        0 <= i < files.len(),
        0 <= j < files.len(),
        i != j,
    ensures
        files.update(i, f)[j] == files[j],
        files.remove(i).len() == files.len() - 1,
        files.remove(i)[if j < i {
            j
        } else {
            j - 1
        }] == files[j],
{
}

// ---------------------------------------------------------------------------
// Files
// ---------------------------------------------------------------------------

/// The file that compose is run on: the one that was loaded, and the one that was typed where none
/// was.
pub fn compose_target(loaded: &str, typed: &str) -> (r: String)
    ensures
        r@ == if loaded@.len() == 0 {
            typed@
        } else {
            loaded@
        },
{
    if loaded.is_empty() {
        typed.to_owned()
    } else {
        loaded.to_owned()
    }
}

// ---------------------------------------------------------------------------
// System
// ---------------------------------------------------------------------------

/// How the memory of a GPU is shown.
pub fn memory_text(g: &GpuStats) -> (r: String)
    ensures
        r@ == numbers::decimal(g@.mem_used_mb as nat) + " / "@ + numbers::decimal(
            g@.mem_total_mb as nat,
        ) + " MB"@,
{
    let mut s: String = numbers::decimal_of(g.mem_used_mb);
    s.append(" / ");
    s.append(numbers::decimal_of(g.mem_total_mb).as_str());
    s.append(" MB");
    s
}

// ---------------------------------------------------------------------------
// Settings
// ---------------------------------------------------------------------------

/// A VM target that was not edited yet.
pub open spec fn blank_target() -> VmTargetView {
    VmTargetView {
        id: Seq::empty(),
        name: Seq::empty(),
        accel: None,
        agent_url: Seq::empty(),
        jarvis_path: "/home/shadowbroker/jarvis"@,
        gpu_arch: None,
        online: false,
    }
}

/// A new row of the settings.
pub fn new_target() -> (r: VmTarget)
    ensures
        r@ == blank_target(),
{
    VmTarget {
        id: String::new(),
        name: String::new(),
        accel: None,
        agent_url: String::new(),
        jarvis_path: "/home/shadowbroker/jarvis".to_owned(),
        gpu_arch: None,
        online: false,
    }
}

/// Removes a row of the settings and hands back the id to delete.
pub fn remove_target(rows: &mut Vec<VmTarget>, i: usize) -> (r: String)
    requires
        i < old(rows)@.len(),
    ensures
        final(rows)@ == old(rows)@.remove(i as int),
        r@ == old(rows)@[i as int].id@,
{
    let gone: VmTarget = rows.remove(i);
    gone.id
}

// ---------------------------------------------------------------------------
// Laws
// ---------------------------------------------------------------------------

/// One more model is shown behind the others exactly where nothing was typed or where its name in
/// lower case holds what was typed; where nothing was typed all are shown.
pub proof fn models_are_shown_one_by_one(
    models: Seq<ModelFileView>,
    m: ModelFileView,
    query: Seq<char>,
)
    ensures
        search::has_text(outside::lowercase(m.filename), query) ==> shown_models(
            models.push(m),
            query,
        ) == shown_models(models, query).push(m),
        query.len() > 0 && !search::has_text(outside::lowercase(m.filename), query)
            ==> shown_models(models.push(m), query) == shown_models(models, query),
        shown_models(models, Seq::empty()) == models,
        shown_models(Seq::empty(), query).len() == 0,
    decreases models.len(),
{
    assert(models.push(m).drop_last() =~= models);
    if models.len() > 0 {
        models_are_shown_one_by_one(models.drop_last(), m, query);
        assert(models.drop_last().push(models.last()) =~= models);
    } else {
        assert(models =~= Seq::empty());
    }
}

/// A name is found by any part of it, and only by its parts.
pub proof fn names_are_found_by_their_parts(a: Seq<char>, q: Seq<char>, b: Seq<char>)
    ensures
        matches_query(a + q + b, q),
        matches_query(a, q) && q.len() > 0 ==> exists|i: int|
            0 <= i <= a.len() - q.len() && #[trigger] a.subrange(i, i + q.len()) == q,
{
    search::parts_of_a_text(a, q, b);
    if matches_query(a, q) && q.len() > 0 {
        let i = choose|i: int| search::occurs_at(a, q, i);
        assert(a.subrange(i, i + q.len()) == q);
    }
}

/// One more profile is one of the VM's exactly where it names that VM; it comes behind the others.
pub proof fn profiles_belong_to_the_vm_they_name(
    profiles: Seq<ServiceProfileView>,
    p: ServiceProfileView,
    vm: Seq<char>,
)
    ensures
        profiles_for(profiles.push(p), p.vm) == profiles_for(profiles, p.vm).push(p),
        p.vm != vm ==> profiles_for(profiles.push(p), vm) == profiles_for(profiles, vm),
        profiles_for(Seq::empty(), vm).len() == 0,
{
    assert(profiles.push(p).drop_last() =~= profiles);
}

/// A field of the download form counts without the white space around it, and not at all where it is
/// blank.
pub proof fn typed_texts_count_without_white_space(s: Seq<char>, c: char)
    requires
        text::is_space(c),
    ensures
        typed_text(s.push(c)) == typed_text(s),
        typed_text(seq![c] + s) == typed_text(s),
        s.len() > 0 && !text::is_space(s[0]) && !text::is_space(s.last()) ==> typed_text(s) == Some(
            s,
        ),
        typed_text(Seq::empty()) is None,
{
    text::white_space_around_does_not_matter(s, c);
    assert(text::trimmed(Seq::<char>::empty()).len() == 0);
}

/// A field that may be left out holds what was typed, as it was typed, and nothing where nothing was.
pub proof fn fields_hold_what_was_typed(typed: Seq<char>)
    ensures
        typed.len() > 0 ==> field_text(typed) == Some(typed),
        field_text(Seq::empty()) is None,
{
}

/// Typing a model sets the model, and of the rest of the profile the directory alone can change.
pub proof fn typing_a_model_changes_model_and_directory_alone(
    p: ServiceProfileView,
    named: bool,
    typed: Seq<char>,
)
    ensures
        ({
            let q = with_model_ref(p, named, typed).0;
            &&& q.model_ref == typed
            &&& q.id == p.id && q.name == p.name && q.vm == p.vm && q.engine == p.engine
            &&& q.service_name == p.service_name && q.container_name == p.container_name
            &&& q.host_port == p.host_port && q.compose_fragment == p.compose_fragment
            &&& q.dockerfile_name == p.dockerfile_name && q.dockerfile == p.dockerfile
            &&& q.tied_files == p.tied_files && q.notes == p.notes && q.known_good == p.known_good
            &&& q.created_at == p.created_at && q.updated_at == p.updated_at
        }),
{
}

/// A change of a tied file changes that one field.
pub proof fn edits_change_one_field(f: TiedFileView, label: String, name: String, content: String)
    ensures
        edited(f, TiedEdit::Filename(name)).filename == name@,
        edited(f, TiedEdit::Filename(name)).role == f.role,
        edited(f, TiedEdit::Filename(name)).content == f.content,
        edited(f, TiedEdit::Content(content)).content == content@,
        edited(f, TiedEdit::Content(content)).role == f.role,
        edited(f, TiedEdit::Content(content)).filename == f.filename,
        edited(f, TiedEdit::Role(label)).filename == f.filename,
        edited(f, TiedEdit::Role(label)).content == f.content,
        forall|role: TiedFileRole|
            label@ == #[trigger] role.label() ==> edited(f, TiedEdit::Role(label)).role == role,
{
    assert forall|role: TiedFileRole| label@ == #[trigger] role.label() implies edited(
        f,
        TiedEdit::Role(label),
    ).role == role by {
        kinds::role_label_round_trip(role);
    }
}

/// A port is shown by its decimal digits behind a colon; no port is not shown.
pub proof fn port_is_shown_behind_a_colon(port: u16)
    ensures
        port_text(Some(port)).len() > 1,
        port_text(Some(port))[0] == ':',
        numbers::parsed(port_text(Some(port)).skip(1), 65535) == Some(port as nat),
        port_text(None).len() == 0,
{
    reveal_strlit(":");
    numbers::written_number_reads_back(port as nat, 65535);
    numbers::written_number_has_no_leading_zero(port as nat);
    assert(port_text(Some(port)).skip(1) =~= numbers::decimal(port as nat));
}

/// A new draft names its VM and nothing else.
pub proof fn new_draft_is_blank(vm: Seq<char>)
    ensures
        ({
            let p = blank_profile(vm);
            &&& p.vm == vm
            &&& p.engine == EngineKind::LlamaCpp
            &&& p.id.len() == 0 && p.name.len() == 0 && p.model_ref.len() == 0
            &&& p.model_dir_name.len() == 0 && p.service_name.len() == 0
            &&& p.container_name.len() == 0 && p.compose_fragment.len() == 0
            &&& p.tied_files.len() == 0 && !p.known_good
            &&& p.host_port is None && p.dockerfile_name is None && p.dockerfile is None
            &&& p.notes is None && p.created_at is None && p.updated_at is None
        }),
        blank_target().jarvis_path == "/home/shadowbroker/jarvis"@,
        blank_target().id.len() == 0 && blank_target().name.len() == 0
            && blank_target().agent_url.len() == 0,
        blank_target().accel is None && blank_target().gpu_arch is None && !blank_target().online,
{
}

}
