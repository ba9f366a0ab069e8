//! The hub's server side: finding the agent of a VM, the swap as the hub drives it, and the
//! sensors that it shows in Home Assistant.

use crate::names;
use crate::outside;
use crate::records::{
    ActivateResult, ActivateResultView, DownloadRequest, DownloadRequestView, GpuStats,
    GpuStatsView, ModelFile, ModelFileView, ServiceProfile, ServiceProfileView, VmTarget,
    VmTargetView,
};
use crate::search;
use crate::text;
use vstd::prelude::*;
use vstd::string::*;

verus! {

// ---------------------------------------------------------------------------
// Agents
// ---------------------------------------------------------------------------

/// The contents of a list of VM targets.
pub open spec fn target_views(v: Seq<VmTarget>) -> Seq<VmTargetView> {
    v.map_values(|t: VmTarget| t@)
}

/// The first target with that id, if there is any.
pub open spec fn target_with_id(targets: Seq<VmTargetView>, id: Seq<char>) -> Option<VmTargetView>
    decreases targets.len(),
{
    if targets.len() == 0 {
        None
    } else if targets[0].id == id {
        Some(targets[0])
    } else {
        target_with_id(targets.skip(1), id)
    }
}

/// The address of the agent of a VM, or the message where it has none.
pub open spec fn agent_address(targets: Seq<VmTargetView>, vm: Seq<char>) -> Result<
    Seq<char>,
    Seq<char>,
> {
    match target_with_id(targets, vm) {
        Some(t) => if t.agent_url.len() > 0 {
            Ok(t.agent_url)
        } else {
            Err("no agent URL for VM '"@ + vm + "'"@)
        },
        None => Err("no agent URL for VM '"@ + vm + "'"@),
    }
}

/// The texts of a reply.
pub open spec fn reply_text(r: Result<String, String>) -> Result<Seq<char>, Seq<char>> {
    match r {
        Ok(s) => Ok(s@),
        Err(m) => Err(m@),
    }
}

/// The place of the first target with that id.
pub fn find_target(targets: &Vec<VmTarget>, id: &str) -> (r: Option<usize>)
    ensures
        match r {
            Some(i) => i < targets@.len() && target_with_id(target_views(targets@), id@) == Some(
                targets@[i as int]@,
            ),
            None => target_with_id(target_views(targets@), id@) is None,
        },
{
    let ghost all = target_views(targets@);
    assert(all.skip(0) =~= all);
    for i in 0..targets.len()
        invariant
            all == target_views(targets@),
            target_with_id(all.skip(i as int), id@) == target_with_id(all, id@),
    {
        assert(all.skip(i as int)[0] == targets@[i as int]@);
        assert(all.skip(i as int).skip(1) =~= all.skip(i + 1));
        if text::same(targets[i].id.as_str(), id) {
            return Some(i);
        }
    }
    None
}

/// The address of the agent of a VM.
pub fn target_url(targets: &Vec<VmTarget>, vm: &str) -> (r: Result<String, String>)
    ensures
        reply_text(r) == agent_address(target_views(targets@), vm@),
{
    if let Some(i) = find_target(targets, vm) {
        if !targets[i].agent_url.as_str().is_empty() {
            return Ok(targets[i].agent_url.clone());
        }
    }
    let mut m: String = "no agent URL for VM '".to_owned();
    m.append(vm);
    m.append("'");
    Err(m)
}

/// A model with the VM it is on.
pub open spec fn on_vm(m: ModelFileView, vm: Seq<char>) -> ModelFileView {
    ModelFileView { vm: vm, ..m }
}

/// The models of a VM, each with the VM it is on.
pub fn list_models(models: Vec<ModelFile>, vm: &str) -> (r: Vec<ModelFile>)
    ensures
        r@.map_values(|m: ModelFile| m@) == models@.map_values(|m: ModelFile| on_vm(m@, vm@)),
{
    let ghost given = models@;
    let ghost want = given.map_values(|m: ModelFile| on_vm(m@, vm@));
    let mut out: Vec<ModelFile> = Vec::new();
    assert(out@.map_values(|m: ModelFile| m@) =~= want.take(0));
    for m in it: models
        invariant
            it.seq() == given,
            want == given.map_values(|m: ModelFile| on_vm(m@, vm@)),
            out@.map_values(|m: ModelFile| m@) == want.take(it.index() as int),
    {
        let ghost n = it.index() as int;
        let ghost before = out@.map_values(|m: ModelFile| m@);
        let ghost was = m@;
        let t: ModelFile = ModelFile {
            vm: vm.to_owned(),
            path: m.path,
            filename: m.filename,
            size_bytes: m.size_bytes,
            format: m.format,
            quant: m.quant,
            modified: m.modified,
        };
        let ghost shown = t@;
        assert(shown =~= on_vm(was, vm@));
        assert(want[n] == shown);
        out.push(t);
        assert(out@.map_values(|m: ModelFile| m@) =~= before.push(shown));
        assert(want.take(n + 1) =~= want.take(n).push(want[n]));
    }
    assert(want.take(want.len() as int) =~= want);
    out
}

/// The request for a download. The token is the hub's own, where it has one; it never comes from
/// the browser.
pub fn start_download(
    repo: String,
    file: Option<String>,
    dest: Option<String>,
    token: Option<String>,
) -> (r: DownloadRequest)
    ensures
        r@ == (DownloadRequestView {
            repo: repo@,
            file: text::opt_text(file),
            dest: text::opt_text(dest),
            hf_token: named(token),
        }),
{
    let hf_token: Option<String> = if_named(token);
    DownloadRequest { repo, file, dest, hf_token }
}

/// The text of a variable that is set to something.
pub open spec fn named(var: Option<String>) -> Option<Seq<char>> {
    match var {
        Some(s) => if s@.len() > 0 {
            Some(s@)
        } else {
            None
        },
        None => None,
    }
}

/// A variable that is set to something; the token of the supervisor is taken this way too.
pub fn if_named(var: Option<String>) -> (r: Option<String>)
    ensures
        text::opt_text(r) == named(var),
{
    match var {
        Some(s) => if s.as_str().is_empty() {
            None
        } else {
            Some(s)
        },
        None => None,
    }
}

// ---------------------------------------------------------------------------
// The swap
// ---------------------------------------------------------------------------

/// Where a swap that the hub drives stands.
#[derive(Debug, PartialEq)]
pub enum Swapping {
    /// The profile is being looked up.
    Loading,
    /// The VM targets are being read, for this profile.
    Resolving(ServiceProfile),
    /// The agent is activating this profile.
    Activating(ServiceProfile),
    /// The profile is being marked as the active one of its VM; what the agent said.
    Marking(ServiceProfile, ActivateResult),
    /// The sensor is being updated; what the agent said.
    Showing(ActivateResult),
    Ended,
}

/// The contents of a [`Swapping`].
pub enum SwappingView {
    Loading,
    Resolving(ServiceProfileView),
    Activating(ServiceProfileView),
    Marking(ServiceProfileView, ActivateResultView),
    Showing(ActivateResultView),
    Ended,
}

impl View for Swapping {
    type V = SwappingView;

    open spec fn view(&self) -> SwappingView {
        match self {
            Swapping::Loading => SwappingView::Loading,
            Swapping::Resolving(p) => SwappingView::Resolving(p@),
            Swapping::Activating(p) => SwappingView::Activating(p@),
            Swapping::Marking(p, r) => SwappingView::Marking(p@, r@),
            Swapping::Showing(r) => SwappingView::Showing(r@),
            Swapping::Ended => SwappingView::Ended,
        }
    }
}

/// What came of the last call.
#[derive(Debug, PartialEq)]
pub enum News {
    /// The profile, where there is one with that id.
    Profile(Result<Option<ServiceProfile>, String>),
    Targets(Result<Vec<VmTarget>, String>),
    Activated(Result<ActivateResult, String>),
    /// A call whose outcome does not matter is over.
    Done,
}

/// The contents of a [`News`].
pub enum NewsView {
    Profile(Result<Option<ServiceProfileView>, Seq<char>>),
    Targets(Result<Seq<VmTargetView>, Seq<char>>),
    Activated(Result<ActivateResultView, Seq<char>>),
    Done,
}

impl View for News {
    type V = NewsView;

    open spec fn view(&self) -> NewsView {
        match self {
            News::Profile(Ok(Some(p))) => NewsView::Profile(Ok(Some(p@))),
            News::Profile(Ok(None)) => NewsView::Profile(Ok(None)),
            News::Profile(Err(m)) => NewsView::Profile(Err(m@)),
            News::Targets(Ok(t)) => NewsView::Targets(Ok(target_views(t@))),
            News::Targets(Err(m)) => NewsView::Targets(Err(m@)),
            News::Activated(Ok(r)) => NewsView::Activated(Ok(r@)),
            News::Activated(Err(m)) => NewsView::Activated(Err(m@)),
            News::Done => NewsView::Done,
        }
    }
}

/// What the hub is to call next.
#[derive(Debug, PartialEq)]
pub enum Call {
    /// Read the VM targets.
    ReadTargets,
    /// Ask the agent at that address to activate the profile.
    Activate(String),
    /// Mark the profile as the active one: the VM and the id of the profile.
    SetActive(String, String),
    /// Show the active profile of a VM: the VM and the name of the profile.
    PushActive(String, String),
    /// Hand this to the caller.
    Finish(Result<ActivateResult, String>),
}

/// The contents of a [`Call`].
pub enum CallView {
    ReadTargets,
    Activate(Seq<char>),
    SetActive(Seq<char>, Seq<char>),
    PushActive(Seq<char>, Seq<char>),
    Finish(Result<ActivateResultView, Seq<char>>),
}

impl View for Call {
    type V = CallView;

    open spec fn view(&self) -> CallView {
        match self {
            Call::ReadTargets => CallView::ReadTargets,
            Call::Activate(u) => CallView::Activate(u@),
            Call::SetActive(v, p) => CallView::SetActive(v@, p@),
            Call::PushActive(v, n) => CallView::PushActive(v@, n@),
            Call::Finish(Ok(r)) => CallView::Finish(Ok(r@)),
            Call::Finish(Err(m)) => CallView::Finish(Err(m@)),
        }
    }
}

/// Whether news can come of the call that was made.
pub open spec fn answers(stage: SwappingView, news: NewsView) -> bool {
    match stage {
        SwappingView::Loading => news is Profile,
        SwappingView::Resolving(_) => news is Targets,
        SwappingView::Activating(_) => news is Activated,
        SwappingView::Marking(_, _) => news is Done,
        SwappingView::Showing(_) => news is Done,
        SwappingView::Ended => false,
    }
}

/// The end of a swap with that message.
pub open spec fn stopped(message: Seq<char>) -> (SwappingView, CallView) {
    (SwappingView::Ended, CallView::Finish(Err(message)))
}

/// The next stage of a swap and the call to make. The profile is marked and shown as active only
/// where the agent says that it is.
pub open spec fn swap_next(profile_id: Seq<char>, stage: SwappingView, news: NewsView) -> (
    SwappingView,
    CallView,
) {
    match (stage, news) {
        (SwappingView::Loading, NewsView::Profile(found)) => match found {
            Ok(Some(p)) => (SwappingView::Resolving(p), CallView::ReadTargets),
            Ok(None) => stopped("profile "@ + profile_id + " not found"@),
            Err(m) => stopped(m),
        },
        (SwappingView::Resolving(p), NewsView::Targets(targets)) => match targets {
            Ok(t) => match agent_address(t, p.vm) {
                Ok(url) => (SwappingView::Activating(p), CallView::Activate(url)),
                Err(m) => stopped(m),
            },
            Err(m) => stopped(m),
        },
        (SwappingView::Activating(p), NewsView::Activated(result)) => match result {
            Ok(r) => if r.ok {
                (SwappingView::Marking(p, r), CallView::SetActive(p.vm, profile_id))
            } else {
                (SwappingView::Ended, CallView::Finish(Ok(r)))
            },
            Err(m) => stopped(m),
        },
        (SwappingView::Marking(p, r), _) => (
            SwappingView::Showing(r),
            CallView::PushActive(p.vm, p.name),
        ),
        (SwappingView::Showing(r), _) => (SwappingView::Ended, CallView::Finish(Ok(r))),
        _ => (SwappingView::Ended, CallView::Finish(Err(Seq::empty()))),
    }
}

/// The next stage of a swap and the call to make, from a stage and what came of the last call. A
/// swap starts with the profile being looked up.
pub fn activate_profile(profile_id: &str, stage: Swapping, news: News) -> (r: (Swapping, Call))
    requires
        answers(stage@, news@),
    ensures
        (r.0@, r.1@) == swap_next(profile_id@, stage@, news@),
        r.0@ is Ended <==> r.1@ is Finish,
{
    match (stage, news) {
        (Swapping::Loading, News::Profile(found)) => match found {
            Ok(Some(p)) => (Swapping::Resolving(p), Call::ReadTargets),
            Ok(None) => {
                let mut m: String = "profile ".to_owned();
                m.append(profile_id);
                m.append(" not found");
                (Swapping::Ended, Call::Finish(Err(m)))
            },
            Err(m) => (Swapping::Ended, Call::Finish(Err(m))),
        },
        (Swapping::Resolving(p), News::Targets(targets)) => match targets {
            Ok(t) => match target_url(&t, p.vm.as_str()) {
                Ok(url) => (Swapping::Activating(p), Call::Activate(url)),
                Err(m) => (Swapping::Ended, Call::Finish(Err(m))),
            },
            Err(m) => (Swapping::Ended, Call::Finish(Err(m))),
        },
        (Swapping::Activating(p), News::Activated(result)) => match result {
            Ok(r) => if r.ok {
                let vm: String = p.vm.clone();
                (Swapping::Marking(p, r), Call::SetActive(vm, profile_id.to_owned()))
            } else {
                (Swapping::Ended, Call::Finish(Ok(r)))
            },
            Err(m) => (Swapping::Ended, Call::Finish(Err(m))),
        },
        (Swapping::Marking(p, r), _) => (Swapping::Showing(r), Call::PushActive(p.vm, p.name)),
        (Swapping::Showing(r), _) => (Swapping::Ended, Call::Finish(Ok(r))),
        _ => (Swapping::Ended, Call::Finish(Err(String::new()))),
    }
}

/// A profile is marked as active only after its agent has said that the activation succeeded.
pub proof fn only_a_success_is_marked(
    profile_id: Seq<char>,
    stage: SwappingView,
    news: NewsView,
)
    requires
        swap_next(profile_id, stage, news).1 is SetActive,
    ensures
        stage is Activating,
        news matches NewsView::Activated(Ok(r)) && r.ok,
        swap_next(profile_id, stage, news).1 == CallView::SetActive(
            stage->Activating_0.vm,
            profile_id,
        ),
{
}

// ---------------------------------------------------------------------------
// Sensors
// ---------------------------------------------------------------------------

/// The name of a VM as it stands in the names of sensors.
pub open spec fn sensor_part(vm: Seq<char>) -> Seq<char> {
    search::replaced(names::slug(vm), "-"@, "_"@)
}

/// The name of a sensor of a VM.
pub open spec fn entity_of(vm: Seq<char>, ending: Seq<char>) -> Seq<char> {
    "sensor.modeldeck_"@ + sensor_part(vm) + ending
}

/// What is posted of a sensor: its name, its state, and the attributes that are texts and numbers.
#[derive(Debug, PartialEq)]
pub struct Sensor {
    pub entity: String,
    pub state: String,
    pub texts: Vec<(String, String)>,
    pub numbers: Vec<(String, u64)>,
}

/// The contents of a [`Sensor`].
#[verifier::ext_equal]
pub struct SensorView {
    pub entity: Seq<char>,
    pub state: Seq<char>,
    pub texts: Seq<(Seq<char>, Seq<char>)>,
    pub numbers: Seq<(Seq<char>, u64)>,
}

impl View for Sensor {
    type V = SensorView;

    open spec fn view(&self) -> SensorView {
        SensorView {
            entity: self.entity@,
            state: self.state@,
            texts: outside::text_pairs(self.texts@),
            numbers: self.numbers@.map_values(|p: (String, u64)| (p.0@, p.1)),
        }
    }
}

/// The sensor that shows the active profile of a VM.
pub open spec fn active_sensor(vm: Seq<char>, profile_name: Seq<char>) -> SensorView {
    SensorView {
        entity: entity_of(vm, "_active"@),
        state: profile_name,
        texts: seq![
            ("friendly_name"@, "ModelDeck "@ + vm + " active model"@),
            ("icon"@, "mdi:robot"@),
            ("vm"@, vm),
        ],
        numbers: Seq::empty(),
    }
}

/// The sensor that shows the VRAM use of a VM; `percent` is the part in use, as it is shown.
pub open spec fn vram_sensor(vm: Seq<char>, g: GpuStatsView, percent: Seq<char>) -> SensorView {
    SensorView {
        entity: entity_of(vm, "_vram"@),
        state: percent,
        texts: seq![
            ("friendly_name"@, "ModelDeck "@ + vm + " VRAM"@),
            ("unit_of_measurement"@, "%"@),
            ("state_class"@, "measurement"@),
            ("icon"@, "mdi:memory"@),
            ("gpu"@, g.name),
        ],
        numbers: seq![("mem_used_mb"@, g.mem_used_mb), ("mem_total_mb"@, g.mem_total_mb)],
    }
}

fn entity(vm: &str, ending: &str) -> (r: String)
    ensures
        r@ == entity_of(vm@, ending@),
{
    proof {
        reveal_strlit("-");
    }
    let slug: String = names::slugify(vm);
    let mut e: String = "sensor.modeldeck_".to_owned();
    e.append(search::replace(slug.as_str(), "-", "_").as_str());
    e.append(ending);
    e
}

fn friendly_name(vm: &str, what: &str) -> (r: String)
    ensures
        r@ == "ModelDeck "@ + vm@ + what@,
{
    let mut n: String = "ModelDeck ".to_owned();
    n.append(vm);
    n.append(what);
    n
}

/// Reflects the active profile of a VM as a sensor (e.g. sensor.modeldeck_amd_active).
pub fn push_active(vm: &str, profile_name: &str) -> (r: Sensor)
    ensures
        r@ == active_sensor(vm@, profile_name@),
{
    let mut texts: Vec<(String, String)> = Vec::new();
    texts.push(("friendly_name".to_owned(), friendly_name(vm, " active model")));
    texts.push(("icon".to_owned(), "mdi:robot".to_owned()));
    texts.push(("vm".to_owned(), vm.to_owned()));
    let r: Sensor = Sensor {
        entity: entity(vm, "_active"),
        state: profile_name.to_owned(),
        texts,
        numbers: Vec::new(),
    };
    assert(r@ =~= active_sensor(vm@, profile_name@));
    r
}

/// Reflects the VRAM use of the first GPU of a VM as a sensor (e.g. sensor.modeldeck_amd_vram);
/// `percent` is the part of it in use, as it is shown. Without a GPU there is no sensor.
pub fn push_gpu(vm: &str, gpus: &Vec<GpuStats>, percent: &str) -> (r: Option<Sensor>)
    ensures
        match r {
            Some(sensor) => gpus@.len() > 0 && sensor@ == vram_sensor(vm@, gpus@[0]@, percent@),
            None => gpus@.len() == 0,
        },
{
    if gpus.len() == 0 {
        return None;
    }
    let g: &GpuStats = &gpus[0];
    let mut texts: Vec<(String, String)> = Vec::new();
    texts.push(("friendly_name".to_owned(), friendly_name(vm, " VRAM")));
    texts.push(("unit_of_measurement".to_owned(), "%".to_owned()));
    texts.push(("state_class".to_owned(), "measurement".to_owned()));
    texts.push(("icon".to_owned(), "mdi:memory".to_owned()));
    texts.push(("gpu".to_owned(), g.name.clone()));
    let mut numbers: Vec<(String, u64)> = Vec::new();
    numbers.push(("mem_used_mb".to_owned(), g.mem_used_mb));
    numbers.push(("mem_total_mb".to_owned(), g.mem_total_mb));
    let r: Sensor = Sensor {
        entity: entity(vm, "_vram"),
        state: percent.to_owned(),
        texts,
        numbers,
    };
    assert(r@ =~= vram_sensor(vm@, g@, percent@));
    Some(r)
}

/// Where the state of a sensor is posted.
pub fn state_url(entity: &str) -> (r: String)
    ensures
        r@ == "http://supervisor/core/api/states/"@ + entity@,
{
    let mut u: String = "http://supervisor/core/api/states/".to_owned();
    u.append(entity);
    u
}

/// The log entry for a sensor that could not be updated.
pub fn push_failed(entity: &str, error: &str) -> (r: String)
    ensures
        r@ == "HA push "@ + entity@ + " failed: "@ + error@,
{
    let mut m: String = "HA push ".to_owned();
    m.append(entity);
    m.append(" failed: ");
    m.append(error);
    m
}

/// Replacing one character by another touches nothing else.
proof fn lemma_replaced_char(s: Seq<char>, from: char, to: char)
    ensures
        search::replaced(s, seq![from], seq![to]) == s.map_values(
            |c: char|
                if c == from {
                    to
                } else {
                    c
                },
        ),
    decreases s.len(),
{
    let f = |c: char|
        if c == from {
            to
        } else {
            c
        };
    if s.len() > 0 {
        lemma_replaced_char(s.skip(1), from, to);
        assert(s.take(1) =~= seq![s[0]]);
        assert(search::has_prefix(s, seq![from]) <==> s[0] == from) by {
            if s[0] == from {
                assert(s.take(1) =~= seq![from]);
            } else {
                assert(s.take(1)[0] != seq![from][0]);
            }
        }
        assert(seq![f(s[0])] + s.skip(1).map_values(f) =~= s.map_values(f));
        assert(search::replaced(s, seq![from], seq![to]) =~= s.map_values(f));
    } else {
        assert(s.map_values(f) =~= s);
    }
}

/// The names of sensors hold lower-case letters, digits and underscores only, whatever the VM is
/// called.
pub proof fn sensor_names_are_plain(vm: Seq<char>)
    ensures
        forall|i: int|
            0 <= i < sensor_part(vm).len() ==> names::is_slug_letter(#[trigger] sensor_part(vm)[i])
                || sensor_part(vm)[i] == '_',
{
    reveal_strlit("-");
    reveal_strlit("_");
    assert("-"@ =~= seq!['-']);
    assert("_"@ =~= seq!['_']);
    lemma_replaced_char(names::slug(vm), '-', '_');
    names::slug_is_well_formed(vm);
    let s = names::slug(vm);
    assert forall|i: int| 0 <= i < sensor_part(vm).len() implies names::is_slug_letter(
        #[trigger] sensor_part(vm)[i],
    ) || sensor_part(vm)[i] == '_' by {
        assert(names::is_slug_letter(s[i]) || s[i] == '-');
    }
}

// ---------------------------------------------------------------------------
// Laws
// ---------------------------------------------------------------------------

/// The agent of a VM is that of the first target with its id, wherever it stands among the others.
pub proof fn first_target_with_the_id_counts(targets: Seq<VmTargetView>, i: int)
    requires
        0 <= i < targets.len(),
        forall|k: int| 0 <= k < i ==> #[trigger] targets[k].id != targets[i].id,
    ensures
        target_with_id(targets, targets[i].id) == Some(targets[i]),
        targets[i].agent_url.len() > 0 ==> agent_address(targets, targets[i].id) == Ok::<
            Seq<char>,
            Seq<char>,
        >(targets[i].agent_url),
        targets[i].agent_url.len() == 0 ==> agent_address(targets, targets[i].id) == Err::<
            Seq<char>,
            Seq<char>,
        >("no agent URL for VM '"@ + targets[i].id + "'"@),
    decreases i,
{
    if i > 0 {
        let rest = targets.skip(1);
        assert forall|k: int| 0 <= k < i - 1 implies #[trigger] rest[k].id != rest[i - 1].id by {
            assert(rest[k] == targets[k + 1]);
        }
        assert(rest[i - 1] == targets[i]);
        assert(targets[0].id != targets[i].id);
        first_target_with_the_id_counts(rest, i - 1);
    }
}

/// A VM that is not among the targets has no agent.
pub proof fn unknown_vm_has_no_agent(targets: Seq<VmTargetView>, vm: Seq<char>)
    requires
        forall|k: int| 0 <= k < targets.len() ==> #[trigger] targets[k].id != vm,
    ensures
        target_with_id(targets, vm) is None,
        agent_address(targets, vm) == Err::<Seq<char>, Seq<char>>(
            "no agent URL for VM '"@ + vm + "'"@,
        ),
    decreases targets.len(),
{
    if targets.len() > 0 {
        let rest = targets.skip(1);
        assert forall|k: int| 0 <= k < rest.len() implies #[trigger] rest[k].id != vm by {
            assert(rest[k] == targets[k + 1]);
        }
        assert(targets[0].id != vm);
        unknown_vm_has_no_agent(rest, vm);
    }
}

/// A model on a VM is the model that the agent listed, and tells its VM.
pub proof fn only_the_vm_is_added(m: ModelFileView, vm: Seq<char>)
    ensures
        on_vm(m, vm).vm == vm,
        on_vm(m, vm).path == m.path,
        on_vm(m, vm).filename == m.filename,
        on_vm(m, vm).size_bytes == m.size_bytes,
        on_vm(m, vm).format == m.format,
        on_vm(m, vm).quant == m.quant,
        on_vm(m, vm).modified == m.modified,
{
}

/// A variable counts exactly where it is set and not empty, and then as it is.
pub proof fn empty_variable_counts_as_unset(var: Option<String>)
    ensures
        var matches Some(s) ==> (s@.len() > 0 ==> named(var) == Some(s@)) && (s@.len() == 0 ==> named(
            var,
        ) is None),
        var is None ==> named(var) is None,
{
}

/// A swap that succeeds goes this way: the targets are read, the agent of the profile's VM is asked to
/// activate it, the profile is marked as the active one of that VM and shown there by its name, and
/// the caller gets what the agent said.
pub proof fn successful_swap(
    id: Seq<char>,
    p: ServiceProfileView,
    targets: Seq<VmTargetView>,
    url: Seq<char>,
    r: ActivateResultView,
)
    requires
        agent_address(targets, p.vm) == Ok::<Seq<char>, Seq<char>>(url),
        r.ok,
    ensures
        ({
            let a = swap_next(id, SwappingView::Loading, NewsView::Profile(Ok(Some(p))));
            let b = swap_next(id, a.0, NewsView::Targets(Ok(targets)));
            let c = swap_next(id, b.0, NewsView::Activated(Ok(r)));
            let d = swap_next(id, c.0, NewsView::Done);
            let e = swap_next(id, d.0, NewsView::Done);
            &&& a.1 is ReadTargets
            &&& b.1 == CallView::Activate(url)
            &&& b.0 == SwappingView::Activating(p)
            &&& c.1 == CallView::SetActive(p.vm, id)
            &&& d.1 == CallView::PushActive(p.vm, p.name)
            &&& e.1 == CallView::Finish(Ok(r))
            &&& e.0 is Ended
        }),
{
}

/// A swap that fails ends where it fails, with the reason: no profile, no target, no answer; and what
/// the agent reports as a failure is handed to the caller as it is, with nothing marked.
pub proof fn failed_swap_ends_with_the_reason(
    id: Seq<char>,
    p: ServiceProfileView,
    targets: Seq<VmTargetView>,
    why: Seq<char>,
    r: ActivateResultView,
)
    requires
        !r.ok,
    ensures
        swap_next(id, SwappingView::Loading, NewsView::Profile(Ok(None))).1 == CallView::Finish(
            Err("profile "@ + id + " not found"@),
        ),
        swap_next(id, SwappingView::Loading, NewsView::Profile(Err(why))).1 == CallView::Finish(
            Err(why),
        ),
        swap_next(id, SwappingView::Resolving(p), NewsView::Targets(Err(why))).1
            == CallView::Finish(Err(why)),
        agent_address(targets, p.vm) matches Err(m) ==> swap_next(
            id,
            SwappingView::Resolving(p),
            NewsView::Targets(Ok(targets)),
        ).1 == CallView::Finish(Err(m)),
        swap_next(id, SwappingView::Activating(p), NewsView::Activated(Err(why))).1
            == CallView::Finish(Err(why)),
        swap_next(id, SwappingView::Activating(p), NewsView::Activated(Ok(r))).1
            == CallView::Finish(Ok(r)),
{
}

/// The sensor of the active profile shows the name of the profile, under a name made of the VM's, and
/// tells the VM; that of the memory shows the percentage and tells the GPU and its numbers.
pub proof fn sensors_show_what_they_are_for(
    vm: Seq<char>,
    profile_name: Seq<char>,
    g: GpuStatsView,
    percent: Seq<char>,
)
    ensures
        active_sensor(vm, profile_name).state == profile_name,
        active_sensor(vm, profile_name).entity == "sensor.modeldeck_"@ + sensor_part(vm)
            + "_active"@,
        active_sensor(vm, profile_name).texts == seq![
            ("friendly_name"@, "ModelDeck "@ + vm + " active model"@),
            ("icon"@, "mdi:robot"@),
            ("vm"@, vm),
        ],
        active_sensor(vm, profile_name).numbers.len() == 0,
        vram_sensor(vm, g, percent).state == percent,
        vram_sensor(vm, g, percent).entity == "sensor.modeldeck_"@ + sensor_part(vm) + "_vram"@,
        vram_sensor(vm, g, percent).numbers == seq![
            ("mem_used_mb"@, g.mem_used_mb),
            ("mem_total_mb"@, g.mem_total_mb),
        ],
        vram_sensor(vm, g, percent).texts == seq![
            ("friendly_name"@, "ModelDeck "@ + vm + " VRAM"@),
            ("unit_of_measurement"@, "%"@),
            ("state_class"@, "measurement"@),
            ("icon"@, "mdi:memory"@),
            ("gpu"@, g.name),
        ],
{
}

/// The name of a VM stands in the names of its sensors as its slug does, with underscores for dashes.
pub proof fn sensors_are_named_by_the_slug(vm: Seq<char>)
    ensures
        sensor_part(vm).len() == names::slug(vm).len(),
        forall|i: int|
            0 <= i < sensor_part(vm).len() ==> #[trigger] sensor_part(vm)[i] == (if names::slug(vm)[i]
                == '-' {
                '_'
            } else {
                names::slug(vm)[i]
            }),
{
    reveal_strlit("-");
    reveal_strlit("_");
    assert("-"@ =~= seq!['-']);
    assert("_"@ =~= seq!['_']);
    lemma_replaced_char(names::slug(vm), '-', '_');
}

}
