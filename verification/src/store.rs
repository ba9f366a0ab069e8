//! Persistence: the rows in which profiles and VM targets are stored, the statements that the
//! store is given, and how it is reached.
//!
//! Rows hold scalars only, so persistence never depends on how a database represents enums.

use crate::kinds;
use crate::kinds::{EngineKind, TiedFileRole};
use crate::records;
use crate::records::{
    ServiceProfile, ServiceProfileView, TiedFile, TiedFileView, Timestamp, VmTarget, VmTargetView,
};
use crate::search;
use crate::text;
use vstd::prelude::*;
use vstd::string::*;

verus! {

// ---------------------------------------------------------------------------
// Rows
// ---------------------------------------------------------------------------

/// A tied file as it is stored.
#[derive(Debug, PartialEq)]
pub struct TiedRow {
    pub role: String,
    pub filename: String,
    pub content: String,
}

/// The contents of a [`TiedRow`].
#[verifier::ext_equal]
pub struct TiedRowView {
    pub role: Seq<char>,
    pub filename: Seq<char>,
    pub content: Seq<char>,
}

impl View for TiedRow {
    type V = TiedRowView;

    open spec fn view(&self) -> TiedRowView {
        TiedRowView {
            role: self.role@,
            filename: self.filename@,
            content: self.content@,
        }
    }
}

/// The contents of a list of stored tied files.
pub open spec fn row_views(v: Seq<TiedRow>) -> Seq<TiedRowView> {
    v.map_values(|r: TiedRow| r@)
}

/// A profile as it is written to the store.
#[derive(Debug, PartialEq)]
pub struct ProfileWrite {
    pub name: String,
    pub vm: String,
    pub engine: String,
    pub model_ref: String,
    pub model_dir_name: String,
    pub service_name: String,
    pub container_name: String,
    pub host_port: Option<i64>,
    pub compose_fragment: String,
    pub dockerfile_name: Option<String>,
    pub dockerfile: Option<String>,
    pub tied_files: Vec<TiedRow>,
    pub notes: Option<String>,
    pub known_good: bool,
    pub created_at: Timestamp,
    pub updated_at: Timestamp,
}

/// The contents of a [`ProfileWrite`].
#[verifier::ext_equal]
pub struct ProfileWriteView {
    pub name: Seq<char>,
    pub vm: Seq<char>,
    pub engine: Seq<char>,
    pub model_ref: Seq<char>,
    pub model_dir_name: Seq<char>,
    pub service_name: Seq<char>,
    pub container_name: Seq<char>,
    pub host_port: Option<i64>,
    pub compose_fragment: Seq<char>,
    pub dockerfile_name: Option<Seq<char>>,
    pub dockerfile: Option<Seq<char>>,
    pub tied_files: Seq<TiedRowView>,
    pub notes: Option<Seq<char>>,
    pub known_good: bool,
    pub created_at: Timestamp,
    pub updated_at: Timestamp,
}

impl View for ProfileWrite {
    type V = ProfileWriteView;

    open spec fn view(&self) -> ProfileWriteView {
        ProfileWriteView {
            name: self.name@,
            vm: self.vm@,
            engine: self.engine@,
            model_ref: self.model_ref@,
            model_dir_name: self.model_dir_name@,
            service_name: self.service_name@,
            container_name: self.container_name@,
            host_port: self.host_port,
            compose_fragment: self.compose_fragment@,
            dockerfile_name: text::opt_text(self.dockerfile_name),
            dockerfile: text::opt_text(self.dockerfile),
            tied_files: row_views(self.tied_files@),
            notes: text::opt_text(self.notes),
            known_good: self.known_good,
            created_at: self.created_at,
            updated_at: self.updated_at,
        }
    }
}

/// A profile as it is read from the store; `rid` is its full record id.
#[derive(Debug, PartialEq)]
pub struct ProfileRead {
    pub rid: String,
    pub name: String,
    pub vm: String,
    pub engine: String,
    pub model_ref: String,
    pub model_dir_name: String,
    pub service_name: String,
    pub container_name: String,
    pub host_port: Option<i64>,
    pub compose_fragment: String,
    pub dockerfile_name: Option<String>,
    pub dockerfile: Option<String>,
    pub tied_files: Vec<TiedRow>,
    pub notes: Option<String>,
    pub known_good: bool,
    pub created_at: Option<Timestamp>,
    pub updated_at: Option<Timestamp>,
}

/// The contents of a [`ProfileRead`].
#[verifier::ext_equal]
pub struct ProfileReadView {
    pub rid: Seq<char>,
    pub name: Seq<char>,
    pub vm: Seq<char>,
    pub engine: Seq<char>,
    pub model_ref: Seq<char>,
    pub model_dir_name: Seq<char>,
    pub service_name: Seq<char>,
    pub container_name: Seq<char>,
    pub host_port: Option<i64>,
    pub compose_fragment: Seq<char>,
    pub dockerfile_name: Option<Seq<char>>,
    pub dockerfile: Option<Seq<char>>,
    pub tied_files: Seq<TiedRowView>,
    pub notes: Option<Seq<char>>,
    pub known_good: bool,
    pub created_at: Option<Timestamp>,
    pub updated_at: Option<Timestamp>,
}

impl View for ProfileRead {
    type V = ProfileReadView;

    open spec fn view(&self) -> ProfileReadView {
        ProfileReadView {
            rid: self.rid@,
            name: self.name@,
            vm: self.vm@,
            engine: self.engine@,
            model_ref: self.model_ref@,
            model_dir_name: self.model_dir_name@,
            service_name: self.service_name@,
            container_name: self.container_name@,
            host_port: self.host_port,
            compose_fragment: self.compose_fragment@,
            dockerfile_name: text::opt_text(self.dockerfile_name),
            dockerfile: text::opt_text(self.dockerfile),
            tied_files: row_views(self.tied_files@),
            notes: text::opt_text(self.notes),
            known_good: self.known_good,
            created_at: self.created_at,
            updated_at: self.updated_at,
        }
    }
}

/// A VM target as it is read from the store; `rid` is its full record id.
#[derive(Debug, PartialEq)]
pub struct VmTargetRead {
    pub rid: String,
    pub name: String,
    pub accel: Option<String>,
    pub agent_url: String,
    pub jarvis_path: Option<String>,
    pub gpu_arch: Option<String>,
}

/// The contents of a [`VmTargetRead`].
#[verifier::ext_equal]
pub struct VmTargetReadView {
    pub rid: Seq<char>,
    pub name: Seq<char>,
    pub accel: Option<Seq<char>>,
    pub agent_url: Seq<char>,
    pub jarvis_path: Option<Seq<char>>,
    pub gpu_arch: Option<Seq<char>>,
}

impl View for VmTargetRead {
    type V = VmTargetReadView;

    open spec fn view(&self) -> VmTargetReadView {
        VmTargetReadView {
            rid: self.rid@,
            name: self.name@,
            accel: text::opt_text(self.accel),
            agent_url: self.agent_url@,
            jarvis_path: text::opt_text(self.jarvis_path),
            gpu_arch: text::opt_text(self.gpu_arch),
        }
    }
}

/// A tied file in stored form.
pub open spec fn tied_row(f: TiedFileView) -> TiedRowView {
    TiedRowView { role: f.role.label(), filename: f.filename, content: f.content }
}

/// The tied file of a stored one.
pub open spec fn tied_file(r: TiedRowView) -> TiedFileView {
    TiedFileView {
        role: TiedFileRole::labelled(r.role),
        filename: r.filename,
        content: r.content,
    }
}

/// A profile in stored form, written at `now`. A profile that was stored before keeps the time of
/// its creation.
pub open spec fn profile_row(p: ServiceProfileView, now: Timestamp) -> ProfileWriteView {
    ProfileWriteView {
        name: p.name,
        vm: p.vm,
        engine: p.engine.label(),
        model_ref: p.model_ref,
        model_dir_name: p.model_dir_name,
        service_name: p.service_name,
        container_name: p.container_name,
        host_port: match p.host_port {
            Some(n) => Some(n as i64),
            None => None,
        },
        compose_fragment: p.compose_fragment,
        dockerfile_name: p.dockerfile_name,
        dockerfile: p.dockerfile,
        tied_files: p.tied_files.map_values(|f: TiedFileView| tied_row(f)),
        notes: p.notes,
        known_good: p.known_good,
        created_at: match p.created_at {
            Some(t) => t,
            None => now,
        },
        updated_at: now,
    }
}

/// A port from its stored form: the low sixteen bits.
pub open spec fn port_of(n: i64) -> u16 {
    (n as int % 65536) as u16
}

/// The profile of a stored one.
pub open spec fn profile_of(r: ProfileReadView) -> ServiceProfileView {
    ServiceProfileView {
        id: record_key(r.rid, "profile:"@),
        name: r.name,
        vm: r.vm,
        engine: EngineKind::labelled(r.engine),
        model_ref: r.model_ref,
        model_dir_name: r.model_dir_name,
        service_name: r.service_name,
        container_name: r.container_name,
        host_port: match r.host_port {
            Some(n) => Some(port_of(n)),
            None => None,
        },
        compose_fragment: r.compose_fragment,
        dockerfile_name: r.dockerfile_name,
        dockerfile: r.dockerfile,
        tied_files: r.tied_files.map_values(|t: TiedRowView| tied_file(t)),
        notes: r.notes,
        known_good: r.known_good,
        created_at: r.created_at,
        updated_at: r.updated_at,
    }
}

/// The VM target of a stored one. Whether it is online is not stored.
pub open spec fn target_of(r: VmTargetReadView) -> VmTargetView {
    VmTargetView {
        id: record_key(r.rid, "vm_target:"@),
        name: r.name,
        accel: r.accel,
        agent_url: r.agent_url,
        jarvis_path: match r.jarvis_path {
            Some(p) => p,
            None => Seq::empty(),
        },
        gpu_arch: r.gpu_arch,
        online: false,
    }
}

/// The key of a record: its id without the table in front and without the angle brackets in which
/// an unusual key is shown.
pub open spec fn record_key(rid: Seq<char>, table: Seq<char>) -> Seq<char> {
    let key = match search::after_prefix(rid, table) {
        Some(rest) => rest,
        None => rid,
    };
    text::drop_ends(text::drop_ends(key, text::only('⟨')), text::only('⟩'))
}

/// The key of a record.
pub fn key_of(rid: &str, table: &str) -> (r: String)
    ensures
        r@ == record_key(rid@, table@),
{
    let key: String = match search::strip_prefix(rid, table) {
        Some(rest) => rest,
        None => rid.to_owned(),
    };
    let v: Vec<char> = text::chars_of(key.as_str());
    let a: &[char] = text::drop_front_char(v.as_slice(), '⟨');
    let b: &[char] = text::drop_back_char(a, '⟨');
    let c: &[char] = text::drop_front_char(b, '⟩');
    let d: &[char] = text::drop_back_char(c, '⟩');
    text::string_of(d)
}

fn to_port(n: i64) -> (r: u16)
    ensures
        r == port_of(n),
{
    match n.checked_rem_euclid(65536) {
        Some(m) => m as u16,
        None => 0,
    }
}

/// A profile in stored form, written at `now`.
pub fn to_write(p: &ServiceProfile, now: Timestamp) -> (r: ProfileWrite)
    ensures
        r@ == profile_row(p@, now),
{
    let ghost want = profile_row(p@, now).tied_files;
    let mut rows: Vec<TiedRow> = Vec::new();
    for i in 0..p.tied_files.len()
        invariant
            want == profile_row(p@, now).tied_files,
            row_views(rows@) =~= want.take(i as int),
    {
        let f: &TiedFile = &p.tied_files[i];
        let ghost before = row_views(rows@);
        assert(p@.tied_files[i as int] == f@);
        let row: TiedRow = TiedRow {
            role: kinds::role_str(&f.role),
            filename: f.filename.clone(),
            content: f.content.clone(),
        };
        let ghost shown = row@;
        assert(shown =~= want[i as int]);
        rows.push(row);
        assert(row_views(rows@) =~= before.push(shown));
        assert(want.take(i + 1) =~= want.take(i as int).push(want[i as int]));
    }
    assert(want.take(want.len() as int) =~= want);
    let w: ProfileWrite = ProfileWrite {
        name: p.name.clone(),
        vm: p.vm.clone(),
        engine: p.engine.as_str().to_owned(),
        model_ref: p.model_ref.clone(),
        model_dir_name: p.model_dir_name.clone(),
        service_name: p.service_name.clone(),
        container_name: p.container_name.clone(),
        host_port: match p.host_port {
            Some(n) => Some(n as i64),
            None => None,
        },
        compose_fragment: p.compose_fragment.clone(),
        dockerfile_name: records::copy_opt(&p.dockerfile_name),
        dockerfile: records::copy_opt(&p.dockerfile),
        tied_files: rows,
        notes: records::copy_opt(&p.notes),
        known_good: p.known_good,
        created_at: match p.created_at {
            Some(t) => t,
            None => now,
        },
        updated_at: now,
    };
    assert(w@ =~= profile_row(p@, now));
    w
}

/// The profile of a stored one.
pub fn from_read(r: ProfileRead) -> (p: ServiceProfile)
    ensures
        p@ == profile_of(r@),
{
    let ghost whole = r@;
    let ghost given = r.tied_files@;
    let ghost want = profile_of(r@).tied_files;
    let mut files: Vec<TiedFile> = Vec::new();
    assert(files@.map_values(|f: TiedFile| f@) =~= want.take(0));
    for row in it: r.tied_files
        invariant
            it.seq() == given,
            want == row_views(given).map_values(|t: TiedRowView| tied_file(t)),
            files@.map_values(|f: TiedFile| f@) == want.take(it.index() as int),
    {
        let ghost n = it.index() as int;
        let ghost before = files@.map_values(|f: TiedFile| f@);
        assert(row_views(given)[n] == row@);
        let f: TiedFile = TiedFile {
            role: kinds::role_from(row.role.as_str()),
            filename: row.filename,
            content: row.content,
        };
        let ghost shown = f@;
        assert(shown =~= want[n]);
        files.push(f);
        assert(files@.map_values(|f: TiedFile| f@) =~= before.push(shown));
        assert(want.take(n + 1) =~= want.take(n).push(want[n]));
    }
    assert(want.take(want.len() as int) =~= want);
    let p: ServiceProfile = ServiceProfile {
        id: key_of(r.rid.as_str(), "profile:"),
        name: r.name,
        vm: r.vm,
        engine: kinds::engine_from_label(r.engine.as_str()),
        model_ref: r.model_ref,
        model_dir_name: r.model_dir_name,
        service_name: r.service_name,
        container_name: r.container_name,
        host_port: match r.host_port {
            Some(n) => Some(to_port(n)),
            None => None,
        },
        compose_fragment: r.compose_fragment,
        dockerfile_name: r.dockerfile_name,
        dockerfile: r.dockerfile,
        tied_files: files,
        notes: r.notes,
        known_good: r.known_good,
        created_at: r.created_at,
        updated_at: r.updated_at,
    };
    assert(p@ =~= profile_of(whole));
    p
}

/// The VM targets of the stored ones, in order.
pub fn list_targets(rows: Vec<VmTargetRead>) -> (r: Vec<VmTarget>)
    ensures
        r@.map_values(|t: VmTarget| t@) == rows@.map_values(|x: VmTargetRead| target_of(x@)),
{
    let ghost given = rows@;
    let ghost want = given.map_values(|x: VmTargetRead| target_of(x@));
    let mut out: Vec<VmTarget> = Vec::new();
    assert(out@.map_values(|t: VmTarget| t@) =~= want.take(0));
    for x in it: rows
        invariant
            it.seq() == given,
            want == given.map_values(|x: VmTargetRead| target_of(x@)),
            out@.map_values(|t: VmTarget| t@) == want.take(it.index() as int),
    {
        let ghost n = it.index() as int;
        let ghost before = out@.map_values(|t: VmTarget| t@);
        let ghost row = x@;
        let t: VmTarget = VmTarget {
            id: key_of(x.rid.as_str(), "vm_target:"),
            name: x.name,
            accel: x.accel,
            agent_url: x.agent_url,
            jarvis_path: match x.jarvis_path {
                Some(p) => p,
                None => String::new(),
            },
            gpu_arch: x.gpu_arch,
            online: false,
        };
        let ghost shown = t@;
        assert(shown =~= target_of(row));
        assert(want[n] == shown);
        out.push(t);
        assert(out@.map_values(|t: VmTarget| t@) =~= before.push(shown));
        assert(want.take(n + 1) =~= want.take(n).push(want[n]));
    }
    assert(want.take(want.len() as int) =~= want);
    out
}

/// The profiles of the stored ones, in order.
pub fn list_profiles(rows: Vec<ProfileRead>) -> (r: Vec<ServiceProfile>)
    ensures
        r@.map_values(|p: ServiceProfile| p@) == rows@.map_values(
            |x: ProfileRead| profile_of(x@),
        ),
{
    let ghost given = rows@;
    let ghost want = given.map_values(|x: ProfileRead| profile_of(x@));
    let mut out: Vec<ServiceProfile> = Vec::new();
    assert(out@.map_values(|p: ServiceProfile| p@) =~= want.take(0));
    for x in it: rows
        invariant
            it.seq() == given,
            want == given.map_values(|x: ProfileRead| profile_of(x@)),
            out@.map_values(|p: ServiceProfile| p@) == want.take(it.index() as int),
    {
        let ghost n = it.index() as int;
        let ghost before = out@.map_values(|p: ServiceProfile| p@);
        let p: ServiceProfile = from_read(x);
        let ghost shown = p@;
        assert(want[n] == shown);
        out.push(p);
        assert(out@.map_values(|p: ServiceProfile| p@) =~= before.push(shown));
        assert(want.take(n + 1) =~= want.take(n).push(want[n]));
    }
    assert(want.take(want.len() as int) =~= want);
    out
}

/// The profile that a search by key found: the first row, if there is any.
pub fn get_profile(rows: Vec<ProfileRead>) -> (r: Option<ServiceProfile>)
    ensures
        match r {
            Some(p) => rows@.len() > 0 && p@ == profile_of(rows@[0]@),
            None => rows@.len() == 0,
        },
{
    let ghost given = rows@;
    for x in it: rows
        invariant
            it.seq() == given,
            it.index() == 0,
    {
        return Some(from_read(x));
    }
    None
}

/// The first of the ids that were found, if there is any.
pub fn get_active(ids: Vec<String>) -> (r: Option<String>)
    ensures
        text::opt_text(r) == if ids@.len() > 0 {
            Some(ids@[0]@)
        } else {
            None
        },
{
    if ids.len() > 0 {
        Some(ids[0].clone())
    } else {
        None
    }
}

/// The key of the record that was created, empty where none is told.
pub fn created_key(ids: Vec<String>) -> (r: String)
    ensures
        r@ == record_key(
            if ids@.len() > 0 {
                ids@[0]@
            } else {
                Seq::empty()
            },
            "profile:"@,
        ),
{
    let rid: String = match get_active(ids) {
        Some(s) => s,
        None => String::new(),
    };
    key_of(rid.as_str(), "profile:")
}

/// The id of a profile that was saved: its own where it was updated, and otherwise the key of the
/// first of the ids that the store gave.
pub open spec fn id_when_saved(p: ServiceProfileView, ids: Seq<Seq<char>>) -> Seq<char> {
    if text::trimmed(p.id).len() > 0 {
        p.id
    } else if ids.len() > 0 {
        record_key(ids[0], "profile:"@)
    } else {
        record_key(Seq::empty(), "profile:"@)
    }
}

/// The id of a profile that was saved, from the ids that the store gave for it.
pub fn saved_id(p: &ServiceProfile, ids: Vec<String>) -> (r: String)
    ensures
        r@ == id_when_saved(p@, text::texts(ids@)),
{
    if text::trim(p.id.as_str()).as_str().is_empty() {
        assert(ids@.len() > 0 ==> text::texts(ids@)[0] == ids@[0]@);
        created_key(ids)
    } else {
        p.id.clone()
    }
}

// ---------------------------------------------------------------------------
// Statements
// ---------------------------------------------------------------------------

/// What the store is asked.
#[derive(Debug, Clone, Copy, PartialEq, Eq, Structural)]
pub enum Statement {
    /// Define the tables, where they are not yet.
    Setup,
    ListTargets,
    UpsertTarget,
    DeleteTarget,
    ListProfiles,
    CreateProfile,
    UpdateProfile,
    GetProfile,
    DeleteProfile,
    SetActive,
    GetActive,
}

/// The columns of a profile.
pub open spec fn profile_columns() -> Seq<char> {
    "<string>id AS rid, name, vm, engine, model_ref, model_dir_name, service_name, container_name, host_port, compose_fragment, dockerfile_name, dockerfile, tied_files, notes, known_good, created_at, updated_at"@
}

/// The text of a statement.
pub open spec fn statement_text(s: Statement) -> Seq<char> {
    match s {
        Statement::Setup =>
            "DEFINE TABLE IF NOT EXISTS vm_target SCHEMALESS; DEFINE TABLE IF NOT EXISTS profile SCHEMALESS; DEFINE TABLE IF NOT EXISTS active SCHEMALESS; DEFINE INDEX IF NOT EXISTS profile_vm ON profile FIELDS vm;"@,
        Statement::ListTargets =>
            "SELECT <string>id AS rid, name, accel, agent_url, jarvis_path, gpu_arch FROM vm_target ORDER BY name"@,
        Statement::UpsertTarget =>
            "UPSERT type::record('vm_target', $id) SET name=$name, accel=$accel, agent_url=$url, jarvis_path=$jp, gpu_arch=$arch"@,
        Statement::DeleteTarget => "DELETE type::record('vm_target', $id)"@,
        Statement::ListProfiles => "SELECT "@ + profile_columns() + " FROM profile ORDER BY name"@,
        Statement::CreateProfile => "CREATE profile CONTENT $p RETURN VALUE <string>id"@,
        Statement::UpdateProfile => "UPDATE type::record('profile', $key) CONTENT $p"@,
        Statement::GetProfile => "SELECT "@ + profile_columns()
            + " FROM type::record('profile', $key)"@,
        Statement::DeleteProfile => "DELETE type::record('profile', $key)"@,
        Statement::SetActive =>
            "UPSERT type::record('active', $vm) SET profile_id=$pid, at=time::now()"@,
        Statement::GetActive => "SELECT VALUE profile_id FROM type::record('active', $vm)"@,
    }
}

fn select_profiles(from: &str) -> (r: String)
    ensures
        r@ == "SELECT "@ + profile_columns() + from@,
{
    let mut s: String = "SELECT ".to_owned();
    s.append(
        "<string>id AS rid, name, vm, engine, model_ref, model_dir_name, service_name, container_name, host_port, compose_fragment, dockerfile_name, dockerfile, tied_files, notes, known_good, created_at, updated_at",
    );
    s.append(from);
    s
}

/// The text of a statement.
pub fn statement(s: Statement) -> (r: String)
    ensures
        r@ == statement_text(s),
{
    match s {
        Statement::Setup =>
            "DEFINE TABLE IF NOT EXISTS vm_target SCHEMALESS; DEFINE TABLE IF NOT EXISTS profile SCHEMALESS; DEFINE TABLE IF NOT EXISTS active SCHEMALESS; DEFINE INDEX IF NOT EXISTS profile_vm ON profile FIELDS vm;".to_owned(),
        Statement::ListTargets =>
            "SELECT <string>id AS rid, name, accel, agent_url, jarvis_path, gpu_arch FROM vm_target ORDER BY name".to_owned(),
        Statement::UpsertTarget =>
            "UPSERT type::record('vm_target', $id) SET name=$name, accel=$accel, agent_url=$url, jarvis_path=$jp, gpu_arch=$arch".to_owned(),
        Statement::DeleteTarget => "DELETE type::record('vm_target', $id)".to_owned(),
        Statement::ListProfiles => select_profiles(" FROM profile ORDER BY name"),
        Statement::CreateProfile => "CREATE profile CONTENT $p RETURN VALUE <string>id".to_owned(),
        Statement::UpdateProfile => "UPDATE type::record('profile', $key) CONTENT $p".to_owned(),
        Statement::GetProfile => select_profiles(" FROM type::record('profile', $key)"),
        Statement::DeleteProfile => "DELETE type::record('profile', $key)".to_owned(),
        Statement::SetActive =>
            "UPSERT type::record('active', $vm) SET profile_id=$pid, at=time::now()".to_owned(),
        Statement::GetActive =>
            "SELECT VALUE profile_id FROM type::record('active', $vm)".to_owned(),
    }
}

/// How a profile is saved: created where its id is blank, and updated otherwise.
pub fn save_profile(p: &ServiceProfile) -> (r: Statement)
    ensures
        r == if text::trimmed(p@.id).len() == 0 {
            Statement::CreateProfile
        } else {
            Statement::UpdateProfile
        },
{
    if text::trim(p.id.as_str()).as_str().is_empty() {
        Statement::CreateProfile
    } else {
        Statement::UpdateProfile
    }
}

/// The values that a VM target is stored with, by the names under which the statement takes them.
pub open spec fn target_values(t: VmTargetView) -> Seq<(Seq<char>, Option<Seq<char>>)> {
    seq![
        ("id"@, Some(t.id)),
        ("name"@, Some(t.name)),
        ("accel"@, t.accel),
        ("url"@, Some(t.agent_url)),
        ("jp"@, Some(t.jarvis_path)),
        ("arch"@, t.gpu_arch),
    ]
}

/// The contents of a list of values.
pub open spec fn value_views(v: Seq<(String, Option<String>)>) -> Seq<
    (Seq<char>, Option<Seq<char>>),
> {
    v.map_values(|p: (String, Option<String>)| (p.0@, text::opt_text(p.1)))
}

/// The values that a VM target is stored with.
pub fn upsert_target(t: &VmTarget) -> (r: Vec<(String, Option<String>)>)
    ensures
        value_views(r@) == target_values(t@),
{
    let mut v: Vec<(String, Option<String>)> = Vec::new();
    v.push(("id".to_owned(), Some(t.id.clone())));
    v.push(("name".to_owned(), Some(t.name.clone())));
    v.push(("accel".to_owned(), records::copy_opt(&t.accel)));
    v.push(("url".to_owned(), Some(t.agent_url.clone())));
    v.push(("jp".to_owned(), Some(t.jarvis_path.clone())));
    v.push(("arch".to_owned(), records::copy_opt(&t.gpu_arch)));
    assert(value_views(v@) =~= target_values(t@));
    v
}

// ---------------------------------------------------------------------------
// Connection
// ---------------------------------------------------------------------------

/// Where the store is reached: over an encrypted socket or over a plain one.
#[derive(Debug, PartialEq)]
pub enum Endpoint {
    Secure(String),
    Plain(String),
}

/// The contents of an [`Endpoint`].
pub enum EndpointView {
    Secure(Seq<char>),
    Plain(Seq<char>),
}

impl View for Endpoint {
    type V = EndpointView;

    open spec fn view(&self) -> EndpointView {
        match self {
            Endpoint::Secure(h) => EndpointView::Secure(h@),
            Endpoint::Plain(h) => EndpointView::Plain(h@),
        }
    }
}

/// The endpoint that an address names; an address without a scheme is a plain host.
pub open spec fn endpoint_of(url: Seq<char>) -> EndpointView {
    match search::after_prefix(url, "wss://"@) {
        Some(host) => EndpointView::Secure(host),
        None => match search::after_prefix(url, "ws://"@) {
            Some(host) => EndpointView::Plain(host),
            None => EndpointView::Plain(url),
        },
    }
}

/// The endpoint that the variable names.
pub fn endpoint(var: Option<&str>) -> (r: Result<Endpoint, String>)
    ensures
        match r {
            Ok(e) => var is Some && text::trimmed(var->0@).len() > 0 && e@ == endpoint_of(
                text::trimmed(var->0@),
            ),
            Err(m) => match var {
                None => m@ == "SURREAL_URL not set"@,
                Some(s) => text::trimmed(s@).len() == 0 && m@ == "SURREAL_URL is empty"@,
            },
        },
{
    let given: &str = match var {
        Some(s) => s,
        None => {
            return Err("SURREAL_URL not set".to_owned());
        },
    };
    let url: String = text::trim(given);
    if url.as_str().is_empty() {
        return Err("SURREAL_URL is empty".to_owned());
    }
    match search::strip_prefix(url.as_str(), "wss://") {
        Some(host) => Ok(Endpoint::Secure(host)),
        None => match search::strip_prefix(url.as_str(), "ws://") {
            Some(host) => Ok(Endpoint::Plain(host)),
            None => Ok(Endpoint::Plain(url)),
        },
    }
}

/// The credentials to sign in with: those of the environment, where both are set and the user is
/// named.
pub fn credentials(user: Option<String>, pass: Option<String>) -> (r: Option<(String, String)>)
    ensures
        match r {
            Some((u, p)) => user == Some(u) && pass == Some(p) && u@.len() > 0,
            None => user is None || pass is None || user->0@.len() == 0,
        },
{
    match (user, pass) {
        (Some(u), Some(p)) => if u.as_str().is_empty() {
            None
        } else {
            Some((u, p))
        },
        _ => None,
    }
}

// ---------------------------------------------------------------------------
// Laws
// ---------------------------------------------------------------------------

/// What is read back of a row that was written under that record id.
pub open spec fn read_back(w: ProfileWriteView, rid: Seq<char>) -> ProfileReadView {
    ProfileReadView {
        rid: rid,
        name: w.name,
        vm: w.vm,
        engine: w.engine,
        model_ref: w.model_ref,
        model_dir_name: w.model_dir_name,
        service_name: w.service_name,
        container_name: w.container_name,
        host_port: w.host_port,
        compose_fragment: w.compose_fragment,
        dockerfile_name: w.dockerfile_name,
        dockerfile: w.dockerfile,
        tied_files: w.tied_files,
        notes: w.notes,
        known_good: w.known_good,
        created_at: Some(w.created_at),
        updated_at: Some(w.updated_at),
    }
}

/// A profile that was stored reads back as it was, under the key of its record and with the times
/// of the store.
pub proof fn stored_profile_reads_back(p: ServiceProfileView, now: Timestamp, rid: Seq<char>)
    ensures
        profile_of(read_back(profile_row(p, now), rid)) == (ServiceProfileView {
            id: record_key(rid, "profile:"@),
            created_at: match p.created_at {
                Some(t) => Some(t),
                None => Some(now),
            },
            updated_at: Some(now),
            ..p
        }),
{
    let back = profile_of(read_back(profile_row(p, now), rid));
    kinds::engine_label_round_trip(p.engine);
    assert(back.tied_files =~= p.tied_files) by {
        assert forall|i: int| 0 <= i < p.tied_files.len() implies back.tied_files[i]
            == p.tied_files[i] by {
            kinds::role_label_round_trip(p.tied_files[i].role);
        }
    }
    if let Some(n) = p.host_port {
        assert(n as i64 as int % 65536 == n as int);
    }
}

/// A VM target that was stored reads back as it was, under the key of its record and not online.
pub proof fn stored_target_reads_back(t: VmTargetView, rid: Seq<char>)
    ensures
        ({
            let v = target_values(t);
            target_of(
                VmTargetReadView {
                    rid: rid,
                    name: v[1].1->0,
                    accel: v[2].1,
                    agent_url: v[3].1->0,
                    jarvis_path: v[4].1,
                    gpu_arch: v[5].1,
                },
            ) == (VmTargetView { id: record_key(rid, "vm_target:"@), online: false, ..t })
        }),
{
}

/// Whether a key is shown as it is or in angle brackets, and whatever the table, the key of a
/// record id is the key. A key that starts or ends in such a bracket itself is left aside.
pub proof fn key_of_a_record_id(table: Seq<char>, key: Seq<char>)
    requires
        key.len() > 0,
        key[0] != '⟨' && key[0] != '⟩',
        key.last() != '⟨' && key.last() != '⟩',
    ensures
        record_key(table + key, table) == key,
        record_key(table + seq!['⟨'] + key + seq!['⟩'], table) == key,
{
    let open = text::only('⟨');
    let close = text::only('⟩');
    assert((table + key).take(table.len() as int) =~= table);
    assert((table + key).skip(table.len() as int) =~= key);
    assert(text::drop_front(key, open) == key);
    assert(text::drop_back(key, open) == key);
    let shown = seq!['⟨'] + key + seq!['⟩'];
    let rid = table + seq!['⟨'] + key + seq!['⟩'];
    assert(rid.take(table.len() as int) =~= table);
    assert(rid.skip(table.len() as int) =~= shown);
    assert(shown.skip(1) =~= key + seq!['⟩']);
    let once = key + seq!['⟩'];
    assert(once[0] == key[0]);
    assert(once.last() == '⟩');
    assert(text::drop_front(once, open) == once);
    assert(text::drop_front(shown, open) == once);
    assert(text::drop_back(once, open) == once);
    assert(text::drop_front(once, close) == once);
    assert(once.drop_last() =~= key);
    assert(text::drop_back(key, close) == key);
    assert(text::drop_back(once, close) == key);
}

/// What holds a text at some place holds the text.
proof fn lemma_held(s: Seq<char>, p: Seq<char>, i: int)
    requires
        0 <= i <= s.len() - p.len(),
        forall|k: int| 0 <= k < p.len() ==> #[trigger] p[k] == s[i + k],
    ensures
        search::has_text(s, p),
{
    assert(s.subrange(i, i + p.len()) =~= p);
    assert(search::occurs_at(s, p, i));
}

/// What is stored, read and deleted under a key is one and the same record: a target by its id, a
/// profile by its key, and what is active by its VM.
#[verifier::rlimit(40)]
pub proof fn statements_name_one_record()
    ensures
        search::has_text(statement_text(Statement::UpsertTarget), "type::record('vm_target', $id)"@),
        search::has_text(statement_text(Statement::DeleteTarget), "type::record('vm_target', $id)"@),
        search::has_text(statement_text(Statement::UpdateProfile), "type::record('profile', $key)"@),
        search::has_text(statement_text(Statement::DeleteProfile), "type::record('profile', $key)"@),
        search::has_text(statement_text(Statement::SetActive), "type::record('active', $vm)"@),
        search::has_text(statement_text(Statement::GetActive), "type::record('active', $vm)"@),
        search::has_text(
            statement_text(Statement::GetProfile),
            "type::record('profile', $key)"@,
        ),
{
    reveal_strlit("type::record('active', $vm)");
    reveal_strlit("type::record('profile', $key)");
    reveal_strlit("type::record('vm_target', $id)");
    reveal_strlit(
        "UPSERT type::record('vm_target', $id) SET name=$name, accel=$accel, agent_url=$url, jarvis_path=$jp, gpu_arch=$arch",
    );
    reveal_strlit("DELETE type::record('vm_target', $id)");
    reveal_strlit("UPDATE type::record('profile', $key) CONTENT $p");
    reveal_strlit("DELETE type::record('profile', $key)");
    reveal_strlit("UPSERT type::record('active', $vm) SET profile_id=$pid, at=time::now()");
    reveal_strlit("SELECT VALUE profile_id FROM type::record('active', $vm)");
    lemma_held(statement_text(Statement::UpsertTarget), "type::record('vm_target', $id)"@, 7);
    lemma_held(statement_text(Statement::DeleteTarget), "type::record('vm_target', $id)"@, 7);
    lemma_held(statement_text(Statement::UpdateProfile), "type::record('profile', $key)"@, 7);
    lemma_held(statement_text(Statement::DeleteProfile), "type::record('profile', $key)"@, 7);
    lemma_held(statement_text(Statement::SetActive), "type::record('active', $vm)"@, 7);
    lemma_held(statement_text(Statement::GetActive), "type::record('active', $vm)"@, 29);
    reveal_strlit("SELECT ");
    reveal_strlit(
        "<string>id AS rid, name, vm, engine, model_ref, model_dir_name, service_name, container_name, host_port, compose_fragment, dockerfile_name, dockerfile, tied_files, notes, known_good, created_at, updated_at",
    );
    reveal_strlit(" FROM type::record('profile', $key)");
    assert(" FROM type::record('profile', $key)"@.len() == 35);
    lemma_held(
        statement_text(Statement::GetProfile),
        "type::record('profile', $key)"@,
        218,
    );
}

/// The statement that stores a target takes each of the values that it is given, under its name.
#[verifier::rlimit(40)]
pub proof fn every_value_of_a_target_is_taken(t: VmTargetView, i: int)
    requires
        0 <= i < target_values(t).len(),
    ensures
        search::has_text(
            statement_text(Statement::UpsertTarget),
            seq!['$'] + target_values(t)[i].0,
        ),
{
    reveal_strlit(
        "UPSERT type::record('vm_target', $id) SET name=$name, accel=$accel, agent_url=$url, jarvis_path=$jp, gpu_arch=$arch",
    );
    reveal_strlit("id");
    reveal_strlit("name");
    reveal_strlit("accel");
    reveal_strlit("url");
    reveal_strlit("jp");
    reveal_strlit("arch");
    let v = target_values(t);
    if i == 0 {
        assert(v[0].0 == "id"@);
        lemma_held(statement_text(Statement::UpsertTarget), seq!['$'] + v[0].0, 33);
    } else if i == 1 {
        assert(v[1].0 == "name"@);
        lemma_held(statement_text(Statement::UpsertTarget), seq!['$'] + v[1].0, 47);
    } else if i == 2 {
        assert(v[2].0 == "accel"@);
        lemma_held(statement_text(Statement::UpsertTarget), seq!['$'] + v[2].0, 60);
    } else if i == 3 {
        assert(v[3].0 == "url"@);
        lemma_held(statement_text(Statement::UpsertTarget), seq!['$'] + v[3].0, 78);
    } else if i == 4 {
        assert(v[4].0 == "jp"@);
        lemma_held(statement_text(Statement::UpsertTarget), seq!['$'] + v[4].0, 96);
    } else {
        assert(v[5].0 == "arch"@);
        lemma_held(statement_text(Statement::UpsertTarget), seq!['$'] + v[5].0, 110);
    }
}

/// A target is stored with its id, its name, its accelerator, the address of its agent, its directory
/// and its architecture, each under its own name.
pub proof fn target_is_stored_field_by_field(t: VmTargetView)
    ensures
        target_values(t) == seq![
            ("id"@, Some(t.id)),
            ("name"@, Some(t.name)),
            ("accel"@, t.accel),
            ("url"@, Some(t.agent_url)),
            ("jp"@, Some(t.jarvis_path)),
            ("arch"@, t.gpu_arch),
        ],
{
}

/// One profile and the list of all of them are read with the same columns; the list is ordered by
/// name.
pub proof fn profiles_are_read_alike()
    ensures
        exists|columns: Seq<char>|
            statement_text(Statement::ListProfiles) == "SELECT "@ + columns
                + " FROM profile ORDER BY name"@ && #[trigger] ("SELECT "@ + columns)
                + " FROM type::record('profile', $key)"@ == statement_text(Statement::GetProfile),
{
    let columns = profile_columns();
    assert(("SELECT "@ + columns) + " FROM type::record('profile', $key)"@ == statement_text(
        Statement::GetProfile,
    ));
}

/// A profile is stored field by field: each one as it is, the engine and the roles of the tied files
/// by their labels, the port by its number; the time of its creation stays and that of its last
/// change is now.
pub proof fn profile_is_stored_field_by_field(p: ServiceProfileView, now: Timestamp, i: int)
    ensures
        ({
            let w = profile_row(p, now);
            &&& w.name == p.name && w.vm == p.vm && w.model_ref == p.model_ref
            &&& w.model_dir_name == p.model_dir_name && w.service_name == p.service_name
            &&& w.container_name == p.container_name
            &&& w.compose_fragment == p.compose_fragment
            &&& w.dockerfile_name == p.dockerfile_name && w.dockerfile == p.dockerfile
            &&& w.notes == p.notes && w.known_good == p.known_good
            &&& w.engine == p.engine.label()
            &&& w.host_port is Some <==> p.host_port is Some
            &&& p.host_port matches Some(n) ==> w.host_port->0 == n
            &&& p.created_at matches Some(t) ==> w.created_at == t
            &&& p.created_at is None ==> w.created_at == now
            &&& w.updated_at == now
            &&& w.tied_files.len() == p.tied_files.len()
            &&& 0 <= i < p.tied_files.len() ==> w.tied_files[i].role == p.tied_files[i].role.label()
                && w.tied_files[i].filename == p.tied_files[i].filename
                && w.tied_files[i].content == p.tied_files[i].content
        }),
{
}

/// A stored profile is read field by field, whatever wrote it.
pub proof fn profile_is_read_field_by_field(r: ProfileReadView, i: int)
    ensures
        ({
            let p = profile_of(r);
            &&& p.name == r.name && p.vm == r.vm && p.model_ref == r.model_ref
            &&& p.model_dir_name == r.model_dir_name && p.service_name == r.service_name
            &&& p.container_name == r.container_name
            &&& p.compose_fragment == r.compose_fragment
            &&& p.dockerfile_name == r.dockerfile_name && p.dockerfile == r.dockerfile
            &&& p.notes == r.notes && p.known_good == r.known_good
            &&& p.created_at == r.created_at && p.updated_at == r.updated_at
            &&& p.host_port is Some <==> r.host_port is Some
            &&& r.host_port matches Some(n) ==> (0 <= n <= 65535 ==> p.host_port->0 == n)
            &&& p.tied_files.len() == r.tied_files.len()
            &&& 0 <= i < p.tied_files.len() ==> p.tied_files[i].filename == r.tied_files[i].filename
                && p.tied_files[i].content == r.tied_files[i].content
        }),
{
}

/// A stored target is read field by field, whatever wrote it; none is online when it is read, and one
/// without a directory has an empty one.
pub proof fn target_is_read_field_by_field(r: VmTargetReadView)
    ensures
        target_of(r).name == r.name,
        target_of(r).accel == r.accel,
        target_of(r).agent_url == r.agent_url,
        target_of(r).gpu_arch == r.gpu_arch,
        r.jarvis_path matches Some(p) ==> target_of(r).jarvis_path == p,
        r.jarvis_path is None ==> target_of(r).jarvis_path.len() == 0,
        !target_of(r).online,
{
}

/// A key without the table in front is its own key.
pub proof fn key_without_a_table(table: Seq<char>, key: Seq<char>)
    requires
        key.len() > 0,
        key[0] != '⟨' && key[0] != '⟩',
        key.last() != '⟨' && key.last() != '⟩',
        !search::has_prefix(key, table),
    ensures
        record_key(key, table) == key,
{
    assert(text::drop_front(key, text::only('⟨')) == key);
    assert(text::drop_back(key, text::only('⟨')) == key);
    assert(text::drop_front(key, text::only('⟩')) == key);
    assert(text::drop_back(key, text::only('⟩')) == key);
}

/// The scheme of an address tells whether the socket is encrypted, and what follows it is the host;
/// an address without a scheme is the host itself.
pub proof fn scheme_tells_the_socket(host: Seq<char>)
    ensures
        endpoint_of("wss://"@ + host) == EndpointView::Secure(host),
        endpoint_of("ws://"@ + host) == EndpointView::Plain(host),
        !search::has_prefix(host, "wss://"@) && !search::has_prefix(host, "ws://"@) ==> endpoint_of(
            host,
        ) == EndpointView::Plain(host),
{
    reveal_strlit("wss://");
    reveal_strlit("ws://");
    let s = "wss://"@ + host;
    assert(s.take(6) =~= "wss://"@);
    assert(s.skip(6) =~= host);
    let p = "ws://"@ + host;
    assert(p.take(5) =~= "ws://"@);
    assert(p.skip(5) =~= host);
    if search::has_prefix(p, "wss://"@) {
        assert(p.take(6)[2] == ':');
        assert("wss://"@[2] == 's');
    }
}

/// A profile that was stored before keeps its id, whatever the store gave; a new one gets the key of the
/// first record that the store tells.
pub proof fn saved_profile_keeps_its_id(
    p: ServiceProfileView,
    ids: Seq<Seq<char>>,
    key: Seq<char>,
)
    requires
        key.len() > 0,
        key[0] != '⟨' && key[0] != '⟩',
        key.last() != '⟨' && key.last() != '⟩',
    ensures
        (exists|i: int| 0 <= i < p.id.len() && !text::is_space(#[trigger] p.id[i]))
            ==> id_when_saved(p, ids) == p.id,
        (forall|i: int| 0 <= i < p.id.len() ==> text::is_space(#[trigger] p.id[i]))
            ==> id_when_saved(p, seq!["profile:"@ + key] + ids) == key && id_when_saved(
            p,
            Seq::empty(),
        ).len() == 0,
{
    text::blank_is_all_space(p.id);
    key_of_a_record_id("profile:"@, key);
    reveal_strlit("profile:");
    if text::trimmed(p.id).len() == 0 {
        let none = Seq::<char>::empty();
        assert(text::drop_ends(none, text::only('⟨')) =~= none);
        assert(text::drop_ends(none, text::only('⟩')) =~= none);
        assert((seq!["profile:"@ + key] + ids)[0] == "profile:"@ + key);
    }
}

/// A stored profile is read with each of its columns.
#[verifier::rlimit(60)]
pub proof fn profiles_are_read_with_every_column()
    ensures
        search::has_text(statement_text(Statement::ListProfiles), "<string>id AS rid"@),
        search::has_text(statement_text(Statement::ListProfiles), ", name,"@),
        search::has_text(statement_text(Statement::ListProfiles), ", vm,"@),
        search::has_text(statement_text(Statement::ListProfiles), ", engine,"@),
        search::has_text(statement_text(Statement::ListProfiles), ", model_ref,"@),
        search::has_text(statement_text(Statement::ListProfiles), ", model_dir_name,"@),
        search::has_text(statement_text(Statement::ListProfiles), ", service_name,"@),
        search::has_text(statement_text(Statement::ListProfiles), ", container_name,"@),
        search::has_text(statement_text(Statement::ListProfiles), ", host_port,"@),
        search::has_text(statement_text(Statement::ListProfiles), ", compose_fragment,"@),
        search::has_text(statement_text(Statement::ListProfiles), ", dockerfile_name,"@),
        search::has_text(statement_text(Statement::ListProfiles), ", dockerfile,"@),
        search::has_text(statement_text(Statement::ListProfiles), ", tied_files,"@),
        search::has_text(statement_text(Statement::ListProfiles), ", notes,"@),
        search::has_text(statement_text(Statement::ListProfiles), ", known_good,"@),
        search::has_text(statement_text(Statement::ListProfiles), ", created_at,"@),
        search::has_text(statement_text(Statement::ListProfiles), ", updated_at "@),
{
    reveal_strlit("SELECT ");
    reveal_strlit(
        "<string>id AS rid, name, vm, engine, model_ref, model_dir_name, service_name, container_name, host_port, compose_fragment, dockerfile_name, dockerfile, tied_files, notes, known_good, created_at, updated_at",
    );
    reveal_strlit(" FROM profile ORDER BY name");
    reveal_strlit("<string>id AS rid");
    reveal_strlit(", name,");
    reveal_strlit(", vm,");
    reveal_strlit(", engine,");
    reveal_strlit(", model_ref,");
    reveal_strlit(", model_dir_name,");
    reveal_strlit(", service_name,");
    reveal_strlit(", container_name,");
    reveal_strlit(", host_port,");
    reveal_strlit(", compose_fragment,");
    reveal_strlit(", dockerfile_name,");
    reveal_strlit(", dockerfile,");
    reveal_strlit(", tied_files,");
    reveal_strlit(", notes,");
    reveal_strlit(", known_good,");
    reveal_strlit(", created_at,");
    reveal_strlit(", updated_at ");
    let s = statement_text(Statement::ListProfiles);
    assert(s.len() == 239);
    lemma_held(s, "<string>id AS rid"@, 7);
    lemma_held(s, ", name,"@, 24);
    lemma_held(s, ", vm,"@, 30);
    lemma_held(s, ", engine,"@, 34);
    lemma_held(s, ", model_ref,"@, 42);
    lemma_held(s, ", model_dir_name,"@, 53);
    lemma_held(s, ", service_name,"@, 69);
    lemma_held(s, ", container_name,"@, 83);
    lemma_held(s, ", host_port,"@, 99);
    lemma_held(s, ", compose_fragment,"@, 110);
    lemma_held(s, ", dockerfile_name,"@, 128);
    lemma_held(s, ", dockerfile,"@, 145);
    lemma_held(s, ", tied_files,"@, 157);
    lemma_held(s, ", notes,"@, 169);
    lemma_held(s, ", known_good,"@, 176);
    lemma_held(s, ", created_at,"@, 188);
    lemma_held(s, ", updated_at "@, 200);
}

/// A stored target is read with each of its columns; the list of all of them is ordered by name.
#[verifier::rlimit(60)]
pub proof fn targets_are_read_with_every_column()
    ensures
        search::has_text(statement_text(Statement::ListTargets), "<string>id AS rid"@),
        search::has_text(statement_text(Statement::ListTargets), ", name,"@),
        search::has_text(statement_text(Statement::ListTargets), ", accel,"@),
        search::has_text(statement_text(Statement::ListTargets), ", agent_url,"@),
        search::has_text(statement_text(Statement::ListTargets), ", jarvis_path,"@),
        search::has_text(statement_text(Statement::ListTargets), ", gpu_arch "@),
        search::has_text(statement_text(Statement::ListTargets), " FROM vm_target ORDER BY name"@),
{
    reveal_strlit(
        "SELECT <string>id AS rid, name, accel, agent_url, jarvis_path, gpu_arch FROM vm_target ORDER BY name",
    );
    reveal_strlit("<string>id AS rid");
    reveal_strlit(", name,");
    reveal_strlit(", accel,");
    reveal_strlit(", agent_url,");
    reveal_strlit(", jarvis_path,");
    reveal_strlit(", gpu_arch ");
    reveal_strlit(" FROM vm_target ORDER BY name");
    let s = statement_text(Statement::ListTargets);
    assert(s.len() == 100);
    lemma_held(s, "<string>id AS rid"@, 7);
    lemma_held(s, ", name,"@, 24);
    lemma_held(s, ", accel,"@, 30);
    lemma_held(s, ", agent_url,"@, 37);
    lemma_held(s, ", jarvis_path,"@, 48);
    lemma_held(s, ", gpu_arch "@, 61);
    lemma_held(s, " FROM vm_target ORDER BY name"@, 71);
}

}
