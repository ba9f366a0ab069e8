//! What the agent answers on its HTTP interface.

use crate::records::{AgentInfo, AgentInfoView, FilePayload, FilePayloadView, GpuStats};
use crate::text;
use crate::tree;
use crate::tree::Config;
use vstd::prelude::*;
use vstd::string::*;

verus! {

/// How many log lines are sent where a request does not say.
pub const DEFAULT_TAIL: u32 = 200;

/// The number of log lines of a request that does not say.
pub fn default_tail() -> (r: u32)
    ensures
        r == DEFAULT_TAIL,
{
    DEFAULT_TAIL
}

/// The host name: the variable where it is set, else the file where it can be read.
pub open spec fn host_name(var: Option<String>, file: Option<String>) -> Seq<char> {
    match (var, file) {
        (Some(s), _) => text::trimmed(s@),
        (None, Some(s)) => text::trimmed(s@),
        (None, None) => Seq::empty(),
    }
}

fn name_of_host(var: &Option<String>, file: &Option<String>) -> (r: String)
    ensures
        r@ == host_name(*var, *file),
{
    match var {
        Some(s) => text::trim(s.as_str()),
        None => match file {
            Some(s) => text::trim(s.as_str()),
            None => String::new(),
        },
    }
}

/// The snapshot of a VM. `var` is its host name variable and `file` the contents of its host name
/// file.
pub fn info(
    cfg: &Config,
    var: &Option<String>,
    file: &Option<String>,
    docker_version: String,
    gpus: Vec<GpuStats>,
) -> (r: AgentInfo)
    ensures
        r@ == (AgentInfoView {
            hostname: host_name(*var, *file),
            accel: cfg.accel.label(),
            jarvis_path: cfg.jarvis@,
            models_dir: tree::child_path(cfg.jarvis@, "models"@),
            docker_version: docker_version@,
            agent_version: cfg.version@,
            gpus: gpus@.map_values(|g: GpuStats| g@),
        }),
{
    AgentInfo {
        hostname: name_of_host(var, file),
        accel: cfg.accel.as_str().to_owned(),
        jarvis_path: cfg.jarvis.clone(),
        models_dir: cfg.models_dir(),
        docker_version,
        agent_version: cfg.version.clone(),
        gpus,
    }
}

/// The answer to a request for the logs of a container.
pub fn logs_payload(container: String, content: String) -> (r: FilePayload)
    ensures
        r@ == (FilePayloadView { path: container@, content: content@ }),
{
    FilePayload { path: container, content }
}

/// Minimal acknowledgement payload.
#[derive(Debug, PartialEq)]
pub struct Ack {
    pub ok: bool,
    pub message: String,
}

impl Ack {
    /// An acknowledgement with nothing to say.
    pub fn ok() -> (r: Ack)
        ensures
            r.ok,
            r.message@ == Seq::<char>::empty(),
    {
        Ack { ok: true, message: String::new() }
    }

    /// An acknowledgement with a message.
    pub fn msg(m: String) -> (r: Ack)
        ensures
            r.ok,
            r.message@ == m@,
    {
        Ack { ok: true, message: m }
    }
}

/// A VM tells the name that its variable holds, and that of its file only where the variable is not
/// set; either without the white space around it.
pub proof fn variable_names_the_host_first(var: String, file: String)
    ensures
        host_name(Some(var), Some(file)) == text::trimmed(var@),
        host_name(Some(var), None) == text::trimmed(var@),
        host_name(None, Some(file)) == text::trimmed(file@),
        host_name(None, None).len() == 0,
{
}

}
