//! The records of the system: what is stored, what the agent reports and what the hub and the
//! agent send each other. Each record has a view in which texts are sequences of characters.

use crate::kinds::{EngineKind, ModelFormat, TiedFileRole};
use crate::text;
use vstd::prelude::*;

verus! {

/// A moment in time: seconds since the Unix epoch, and nanoseconds past that second.
#[derive(Debug, Clone, Copy, PartialEq, Eq, Structural)]
pub struct Timestamp {
    pub secs: i64,
    pub nanos: u32,
}

/// A managed AI VM that runs an agent. The agent's bearer secret is not part of the record, so
/// the database never holds credentials.
#[derive(Debug, Clone, PartialEq, Default)]
pub struct VmTarget {
    /// Stable slug, e.g. "amd" / "nvidia". Also the record key.
    pub id: String,
    pub name: String,
    pub accel: Option<String>,
    /// Base URL of this VM's agent, e.g. "http://AGENT_IP:9777".
    pub agent_url: String,
    /// Where the jarvis tree lives on the VM, e.g. "/opt/jarvis".
    pub jarvis_path: String,
    /// GPU arch tag for display, e.g. "gfx1201" / "sm_86".
    pub gpu_arch: Option<String>,
    pub online: bool,
}

/// The contents of a [`VmTarget`].
#[verifier::ext_equal]
pub struct VmTargetView {
    pub id: Seq<char>,
    pub name: Seq<char>,
    pub accel: Option<Seq<char>>,
    pub agent_url: Seq<char>,
    pub jarvis_path: Seq<char>,
    pub gpu_arch: Option<Seq<char>>,
    pub online: bool,
}

impl View for VmTarget {
    type V = VmTargetView;

    open spec fn view(&self) -> VmTargetView {
        VmTargetView {
            id: self.id@,
            name: self.name@,
            accel: text::opt_text(self.accel),
            agent_url: self.agent_url@,
            jarvis_path: self.jarvis_path@,
            gpu_arch: text::opt_text(self.gpu_arch),
            online: self.online,
        }
    }
}

/// A small text file bound to a [`ServiceProfile`]. On activation it is written to
/// `services/<model_dir_name>/<filename>`, so that a profile's custom chat template can never be
/// used by another model by accident.
#[derive(Debug, Clone, PartialEq)]
pub struct TiedFile {
    pub role: TiedFileRole,
    /// Bare filename, e.g. "a3btemplate.jinja"; no path.
    pub filename: String,
    pub content: String,
}

/// The contents of a [`TiedFile`].
#[verifier::ext_equal]
pub struct TiedFileView {
    pub role: TiedFileRole,
    pub filename: Seq<char>,
    pub content: Seq<char>,
}

impl View for TiedFile {
    type V = TiedFileView;

    open spec fn view(&self) -> TiedFileView {
        TiedFileView {
            role: self.role,
            filename: self.filename@,
            content: self.content@,
        }
    }
}

/// A saved, known-good inference service: one container that serves one model, plus the files it
/// depends on. The source of truth is `compose_fragment`; the structured fields serve display,
/// filtering and the swap.
#[derive(Debug, Clone, PartialEq, Default)]
pub struct ServiceProfile {
    /// Record key (empty when creating).
    pub id: String,
    pub name: String,
    /// [`VmTarget`] id this profile targets.
    pub vm: String,
    pub engine: EngineKind,
    /// The model the service serves: a `/models/*.gguf` path or an HF repo id.
    pub model_ref: String,
    /// Directory name under `services/` that holds this profile's tied files.
    pub model_dir_name: String,
    /// Compose service key, e.g. "llama".
    pub service_name: String,
    pub container_name: String,
    /// Host port the service publishes (for health checks and quick links).
    pub host_port: Option<u16>,
    /// YAML for this single compose service.
    pub compose_fragment: String,
    /// If the engine builds from a Dockerfile, its name (e.g. "Dockerfile.llama").
    pub dockerfile_name: Option<String>,
    /// Contents of that Dockerfile.
    pub dockerfile: Option<String>,
    pub tied_files: Vec<TiedFile>,
    pub notes: Option<String>,
    /// Marked by the user once a config is confirmed working.
    pub known_good: bool,
    pub created_at: Option<Timestamp>,
    pub updated_at: Option<Timestamp>,
}

/// The contents of a [`ServiceProfile`].
#[verifier::ext_equal]
pub struct ServiceProfileView {
    pub id: Seq<char>,
    pub name: Seq<char>,
    pub vm: Seq<char>,
    pub engine: EngineKind,
    pub model_ref: Seq<char>,
    pub model_dir_name: Seq<char>,
    pub service_name: Seq<char>,
    pub container_name: Seq<char>,
    pub host_port: Option<u16>,
    pub compose_fragment: Seq<char>,
    pub dockerfile_name: Option<Seq<char>>,
    pub dockerfile: Option<Seq<char>>,
    pub tied_files: Seq<TiedFileView>,
    pub notes: Option<Seq<char>>,
    pub known_good: bool,
    pub created_at: Option<Timestamp>,
    pub updated_at: Option<Timestamp>,
}

impl View for ServiceProfile {
    type V = ServiceProfileView;

    open spec fn view(&self) -> ServiceProfileView {
        ServiceProfileView {
            id: self.id@,
            name: self.name@,
            vm: self.vm@,
            engine: self.engine,
            model_ref: self.model_ref@,
            model_dir_name: self.model_dir_name@,
            service_name: self.service_name@,
            container_name: self.container_name@,
            host_port: self.host_port,
            compose_fragment: self.compose_fragment@,
            dockerfile_name: text::opt_text(self.dockerfile_name),
            dockerfile: text::opt_text(self.dockerfile),
            tied_files: self.tied_files@.map_values(|x: TiedFile| x@),
            notes: text::opt_text(self.notes),
            known_good: self.known_good,
            created_at: self.created_at,
            updated_at: self.updated_at,
        }
    }
}

/// One GPU as its tools report it. Utilisation and temperature stay in the text form in which
/// they were read.
#[derive(Debug, Clone, PartialEq, Default)]
pub struct GpuStats {
    pub index: u32,
    pub name: String,
    pub mem_total_mb: u64,
    pub mem_used_mb: u64,
    pub util_pct: Option<String>,
    pub temp_c: Option<String>,
}

/// The contents of a [`GpuStats`].
#[verifier::ext_equal]
pub struct GpuStatsView {
    pub index: u32,
    pub name: Seq<char>,
    pub mem_total_mb: u64,
    pub mem_used_mb: u64,
    pub util_pct: Option<Seq<char>>,
    pub temp_c: Option<Seq<char>>,
}

impl View for GpuStats {
    type V = GpuStatsView;

    open spec fn view(&self) -> GpuStatsView {
        GpuStatsView {
            index: self.index,
            name: self.name@,
            mem_total_mb: self.mem_total_mb,
            mem_used_mb: self.mem_used_mb,
            util_pct: text::opt_text(self.util_pct),
            temp_c: text::opt_text(self.temp_c),
        }
    }
}

/// Snapshot that an agent gives of its VM.
#[derive(Debug, Clone, PartialEq, Default)]
pub struct AgentInfo {
    pub hostname: String,
    pub accel: String,
    pub jarvis_path: String,
    pub models_dir: String,
    pub docker_version: String,
    pub agent_version: String,
    pub gpus: Vec<GpuStats>,
}

/// The contents of a [`AgentInfo`].
#[verifier::ext_equal]
pub struct AgentInfoView {
    pub hostname: Seq<char>,
    pub accel: Seq<char>,
    pub jarvis_path: Seq<char>,
    pub models_dir: Seq<char>,
    pub docker_version: Seq<char>,
    pub agent_version: Seq<char>,
    pub gpus: Seq<GpuStatsView>,
}

impl View for AgentInfo {
    type V = AgentInfoView;

    open spec fn view(&self) -> AgentInfoView {
        AgentInfoView {
            hostname: self.hostname@,
            accel: self.accel@,
            jarvis_path: self.jarvis_path@,
            models_dir: self.models_dir@,
            docker_version: self.docker_version@,
            agent_version: self.agent_version@,
            gpus: self.gpus@.map_values(|x: GpuStats| x@),
        }
    }
}

/// One docker container as `docker ps` lists it, with the compose labels taken out.
#[derive(Debug, Clone, PartialEq, Default)]
pub struct ContainerStatus {
    pub name: String,
    pub image: String,
    pub state: String,
    pub status: String,
    pub ports: Vec<String>,
    pub compose_project: Option<String>,
    pub compose_service: Option<String>,
    pub health: Option<String>,
}

/// The contents of a [`ContainerStatus`].
#[verifier::ext_equal]
pub struct ContainerStatusView {
    pub name: Seq<char>,
    pub image: Seq<char>,
    pub state: Seq<char>,
    pub status: Seq<char>,
    pub ports: Seq<Seq<char>>,
    pub compose_project: Option<Seq<char>>,
    pub compose_service: Option<Seq<char>>,
    pub health: Option<Seq<char>>,
}

impl View for ContainerStatus {
    type V = ContainerStatusView;

    open spec fn view(&self) -> ContainerStatusView {
        ContainerStatusView {
            name: self.name@,
            image: self.image@,
            state: self.state@,
            status: self.status@,
            ports: text::texts(self.ports@),
            compose_project: text::opt_text(self.compose_project),
            compose_service: text::opt_text(self.compose_service),
            health: text::opt_text(self.health),
        }
    }
}

/// A docker-compose project on a VM (from `docker compose ls`).
#[derive(Debug, Clone, PartialEq, Default)]
pub struct ComposeProject {
    pub name: String,
    pub status: String,
    pub config_files: Vec<String>,
}

/// The contents of a [`ComposeProject`].
#[verifier::ext_equal]
pub struct ComposeProjectView {
    pub name: Seq<char>,
    pub status: Seq<char>,
    pub config_files: Seq<Seq<char>>,
}

impl View for ComposeProject {
    type V = ComposeProjectView;

    open spec fn view(&self) -> ComposeProjectView {
        ComposeProjectView {
            name: self.name@,
            status: self.status@,
            config_files: text::texts(self.config_files@),
        }
    }
}

/// A file the editor reads or writes on a VM (compose file, Dockerfile, template).
#[derive(Debug, Clone, PartialEq, Default)]
pub struct FilePayload {
    pub path: String,
    pub content: String,
}

/// The contents of a [`FilePayload`].
#[verifier::ext_equal]
pub struct FilePayloadView {
    pub path: Seq<char>,
    pub content: Seq<char>,
}

impl View for FilePayload {
    type V = FilePayloadView;

    open spec fn view(&self) -> FilePayloadView {
        FilePayloadView {
            path: self.path@,
            content: self.content@,
        }
    }
}

/// A model found under models/ or hf-cache/.
#[derive(Debug, Clone, PartialEq, Default)]
pub struct ModelFile {
    pub vm: String,
    pub path: String,
    pub filename: String,
    pub size_bytes: u64,
    pub format: Option<ModelFormat>,
    pub quant: Option<String>,
    pub modified: Option<Timestamp>,
}

/// The contents of a [`ModelFile`].
#[verifier::ext_equal]
pub struct ModelFileView {
    pub vm: Seq<char>,
    pub path: Seq<char>,
    pub filename: Seq<char>,
    pub size_bytes: u64,
    pub format: Option<ModelFormat>,
    pub quant: Option<Seq<char>>,
    pub modified: Option<Timestamp>,
}

impl View for ModelFile {
    type V = ModelFileView;

    open spec fn view(&self) -> ModelFileView {
        ModelFileView {
            vm: self.vm@,
            path: self.path@,
            filename: self.filename@,
            size_bytes: self.size_bytes,
            format: self.format,
            quant: text::opt_text(self.quant),
            modified: self.modified,
        }
    }
}

/// Request to start a HuggingFace download on a VM. The token is passed per call and never
/// stored.
#[derive(Debug, Clone, PartialEq, Default)]
pub struct DownloadRequest {
    /// HF repo id, e.g. "unsloth/Qwen3-30B-A3B-GGUF".
    pub repo: String,
    /// Optional single file to pull (glob ok), e.g. "*Q4_K_M.gguf".
    pub file: Option<String>,
    /// Destination subdir under models/ (defaults to the repo's basename).
    pub dest: Option<String>,
    pub hf_token: Option<String>,
}

/// The contents of a [`DownloadRequest`].
#[verifier::ext_equal]
pub struct DownloadRequestView {
    pub repo: Seq<char>,
    pub file: Option<Seq<char>>,
    pub dest: Option<Seq<char>>,
    pub hf_token: Option<Seq<char>>,
}

impl View for DownloadRequest {
    type V = DownloadRequestView;

    open spec fn view(&self) -> DownloadRequestView {
        DownloadRequestView {
            repo: self.repo@,
            file: text::opt_text(self.file),
            dest: text::opt_text(self.dest),
            hf_token: text::opt_text(self.hf_token),
        }
    }
}

/// Result of activating a profile (swap, restart and health probe).
#[derive(Debug, Clone, PartialEq, Default)]
pub struct ActivateResult {
    pub ok: bool,
    pub message: String,
    pub health_ok: bool,
    pub log_tail: Vec<String>,
}

/// The contents of a [`ActivateResult`].
#[verifier::ext_equal]
pub struct ActivateResultView {
    pub ok: bool,
    pub message: Seq<char>,
    pub health_ok: bool,
    pub log_tail: Seq<Seq<char>>,
}

impl View for ActivateResult {
    type V = ActivateResultView;

    open spec fn view(&self) -> ActivateResultView {
        ActivateResultView {
            ok: self.ok,
            message: self.message@,
            health_ok: self.health_ok,
            log_tail: text::texts(self.log_tail@),
        }
    }
}

/// A copy of an optional string.
pub fn copy_opt(o: &Option<String>) -> (r: Option<String>)
    ensures
        r == *o,
{
    match o {
        Some(s) => Some(s.clone()),
        None => None,
    }
}

}
