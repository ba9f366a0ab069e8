//! Docker and compose: the command lines that are run, and what their output says.

use crate::outside;
use crate::records::{ComposeProject, ComposeProjectView, ContainerStatus, ContainerStatusView};
use crate::numbers;
use crate::search;
use crate::text;
use vstd::prelude::*;
use vstd::string::*;

verus! {

// ---------------------------------------------------------------------------
// Commands and their results
// ---------------------------------------------------------------------------

/// What a finished command left behind.
#[derive(Debug, PartialEq)]
pub struct Out {
    pub code: i32,
    pub stdout: String,
    pub stderr: String,
}

impl Out {
    /// The result of a command with that exit code, `None` where a signal ended it, and those
    /// bytes on its two outputs.
    pub fn new(code: Option<i32>, stdout: &[u8], stderr: &[u8]) -> (r: Out)
        ensures
            r.code == match code {
                Some(c) => c,
                None => -1i32,
            },
            r.stdout@ == outside::utf8_lossy(stdout@),
            r.stderr@ == outside::utf8_lossy(stderr@),
    {
        Out {
            code: match code {
                Some(c) => c,
                None => -1,
            },
            stdout: outside::from_utf8_lossy(stdout),
            stderr: outside::from_utf8_lossy(stderr),
        }
    }
}

/// The message for a command that failed; `listed` are its arguments as a list.
pub open spec fn failure_message(
    program: Seq<char>,
    listed: Seq<char>,
    code: int,
    stderr: Seq<char>,
) -> Seq<char> {
    program + " "@ + listed + " exited "@ + numbers::signed_decimal(code)
        + ": "@ + text::trimmed(stderr)
}

/// The message for a command that failed; `listed` are its arguments as a list.
pub fn exit_message(program: &str, listed: &str, code: i32, stderr: &str) -> (r: String)
    ensures
        r@ == failure_message(program@, listed@, code as int, stderr@),
{
    let mut m: String = program.to_owned();
    m.append(" ");
    m.append(listed);
    m.append(" exited ");
    m.append(numbers::signed_decimal_of(code).as_str());
    m.append(": ");
    m.append(text::trim(stderr).as_str());
    m
}

/// The standard output of a command that succeeded, or a message that carries its standard
/// error.
pub fn run_ok(program: &str, args: &Vec<String>, out: Out) -> (r: Result<String, String>)
    ensures
        match r {
            Ok(s) => out.code == 0 && s@ == out.stdout@,
            Err(m) => out.code != 0 && m@ == failure_message(
                program@,
                outside::debug_list(text::texts(args@)),
                out.code as int,
                out.stderr@,
            ),
        },
{
    if out.code != 0 {
        let listed: String = outside::format_list(args);
        Err(exit_message(program, listed.as_str(), out.code, out.stderr.as_str()))
    } else {
        Ok(out.stdout)
    }
}

/// `docker version`, for the version of the server.
pub fn version_args() -> (r: Vec<String>)
    ensures
        text::texts(r@) == seq!["version"@, "--format"@, "{{.Server.Version}}"@],
{
    let mut v: Vec<String> = Vec::new();
    v.push("version".to_owned());
    v.push("--format".to_owned());
    v.push("{{.Server.Version}}".to_owned());
    assert(text::texts(v@) =~= seq!["version"@, "--format"@, "{{.Server.Version}}"@]);
    v
}

/// `docker ps` over all containers, one JSON object to a line.
pub fn containers_args() -> (r: Vec<String>)
    ensures
        text::texts(r@) == seq!["ps"@, "-a"@, "--no-trunc"@, "--format"@, "{{json .}}"@],
{
    let mut v: Vec<String> = Vec::new();
    v.push("ps".to_owned());
    v.push("-a".to_owned());
    v.push("--no-trunc".to_owned());
    v.push("--format".to_owned());
    v.push("{{json .}}".to_owned());
    assert(text::texts(v@) =~= seq!["ps"@, "-a"@, "--no-trunc"@, "--format"@, "{{json .}}"@]);
    v
}

/// `docker compose ls` over all projects, as one JSON array.
pub fn compose_projects_args() -> (r: Vec<String>)
    ensures
        text::texts(r@) == seq!["compose"@, "ls"@, "--all"@, "--format"@, "json"@],
{
    let mut v: Vec<String> = Vec::new();
    v.push("compose".to_owned());
    v.push("ls".to_owned());
    v.push("--all".to_owned());
    v.push("--format".to_owned());
    v.push("json".to_owned());
    assert(text::texts(v@) =~= seq!["compose"@, "ls"@, "--all"@, "--format"@, "json"@]);
    v
}

/// The arguments of `docker compose -f <file> [-p <project>] up -d --remove-orphans`.
pub open spec fn up_args(file: Seq<char>, project: Option<Seq<char>>) -> Seq<Seq<char>> {
    seq!["compose"@, "-f"@, file] + match project {
        Some(p) => seq!["-p"@, p],
        None => Seq::empty(),
    } + seq!["up"@, "-d"@, "--remove-orphans"@]
}

/// `docker compose -f <file> [-p <project>] up -d --remove-orphans`.
pub fn compose_up(file: &str, project: Option<&str>) -> (r: Vec<String>)
    ensures
        text::texts(r@) == up_args(file@, text::opt_str(project)),
{
    let mut v: Vec<String> = Vec::new();
    v.push("compose".to_owned());
    v.push("-f".to_owned());
    v.push(file.to_owned());
    if let Some(p) = project {
        v.push("-p".to_owned());
        v.push(p.to_owned());
    }
    v.push("up".to_owned());
    v.push("-d".to_owned());
    v.push("--remove-orphans".to_owned());
    assert(text::texts(v@) =~= up_args(file@, text::opt_str(project)));
    v
}

/// `docker compose -p <project> down`.
pub fn compose_down(project: &str) -> (r: Vec<String>)
    ensures
        text::texts(r@) == seq!["compose"@, "-p"@, project@, "down"@],
{
    let mut v: Vec<String> = Vec::new();
    v.push("compose".to_owned());
    v.push("-p".to_owned());
    v.push(project.to_owned());
    v.push("down".to_owned());
    assert(text::texts(v@) =~= seq!["compose"@, "-p"@, project@, "down"@]);
    v
}

/// Restart a single container by name (`docker restart`).
pub fn restart_container(name: &str) -> (r: Vec<String>)
    ensures
        text::texts(r@) == seq!["restart"@, name@],
{
    let mut v: Vec<String> = Vec::new();
    v.push("restart".to_owned());
    v.push(name.to_owned());
    assert(text::texts(v@) =~= seq!["restart"@, name@]);
    v
}

/// `docker logs`, for the last `tail` lines of a container.
pub fn logs_args(container: &str, tail: u32) -> (r: Vec<String>)
    ensures
        text::texts(r@) == seq!["logs"@, "--tail"@, numbers::decimal(tail as nat), container@],
{
    let mut v: Vec<String> = Vec::new();
    v.push("logs".to_owned());
    v.push("--tail".to_owned());
    v.push(numbers::decimal_of(tail as u64));
    v.push(container.to_owned());
    assert(text::texts(v@) =~= seq![
        "logs"@,
        "--tail"@,
        numbers::decimal(tail as nat),
        container@,
    ]);
    v
}

/// The log text of a container. Many images write their own output to standard error, so both
/// outputs count.
pub fn logs(out: &Out) -> (r: String)
    ensures
        r@ == out.stdout@ + out.stderr@,
{
    let mut s: String = out.stdout.clone();
    s.append(out.stderr.as_str());
    s
}

/// The version of the docker server, empty where it could not be asked.
pub fn docker_version(out: &Option<Out>) -> (r: String)
    ensures
        r@ == match out {
            Some(o) => text::trimmed(o.stdout@),
            None => Seq::empty(),
        },
{
    match out {
        Some(o) => text::trim(o.stdout.as_str()),
        None => String::new(),
    }
}

// ---------------------------------------------------------------------------
// Containers
// ---------------------------------------------------------------------------

/// The columns of a container that are read from `docker ps`; a missing one is empty.
#[derive(Debug, PartialEq)]
pub struct ContainerRow {
    pub labels: String,
    pub status: String,
    pub ports: String,
    pub names: String,
    pub image: String,
    pub state: String,
}

/// The value of `key` in the first of the `key=value` pairs that has that key.
pub open spec fn first_value(pairs: Seq<Seq<char>>, key: Seq<char>) -> Option<Seq<char>>
    decreases pairs.len(),
{
    if pairs.len() == 0 {
        None
    } else {
        match search::cut_once(pairs[0], '=') {
            Some((k, v)) => if k == key {
                Some(v)
            } else {
                first_value(pairs.skip(1), key)
            },
            None => first_value(pairs.skip(1), key),
        }
    }
}

/// The value of a label in a comma-separated list of `key=value` pairs.
pub open spec fn label_value(labels: Seq<char>, key: Seq<char>) -> Option<Seq<char>> {
    first_value(search::split(labels, seq![',']), key)
}

/// The health that a status text tells of.
pub open spec fn health_of(status: Seq<char>) -> Option<Seq<char>> {
    if search::has_text(status, "(healthy)"@) {
        Some("healthy"@)
    } else if search::has_text(status, "(unhealthy)"@) {
        Some("unhealthy"@)
    } else if search::has_text(status, "(health: starting)"@) {
        Some("starting"@)
    } else {
        None
    }
}

/// The container that a row describes.
pub open spec fn container_of(
    labels: Seq<char>,
    status: Seq<char>,
    ports: Seq<char>,
    names: Seq<char>,
    image: Seq<char>,
    state: Seq<char>,
) -> ContainerStatusView {
    ContainerStatusView {
        name: names,
        image: image,
        state: state,
        status: status,
        ports: search::comma_list(ports),
        compose_project: label_value(labels, "com.docker.compose.project"@),
        compose_service: label_value(labels, "com.docker.compose.service"@),
        health: health_of(status),
    }
}

/// The text of a member, empty where there is none.
pub open spec fn column(row: Map<Seq<char>, Seq<char>>, key: Seq<char>) -> Seq<char> {
    if row.contains_key(key) {
        row[key]
    } else {
        Seq::empty()
    }
}

/// The container that a JSON object of `docker ps` describes.
pub open spec fn container_in(row: Map<Seq<char>, Seq<char>>) -> ContainerStatusView {
    container_of(
        column(row, "Labels"@),
        column(row, "Status"@),
        column(row, "Ports"@),
        column(row, "Names"@),
        column(row, "Image"@),
        column(row, "State"@),
    )
}

/// The containers that the lines of `docker ps` describe. Blank lines and lines that are no JSON
/// are left out.
pub open spec fn containers_in(lines: Seq<Seq<char>>) -> Seq<ContainerStatusView>
    decreases lines.len(),
{
    if lines.len() == 0 {
        Seq::empty()
    } else {
        let before = containers_in(lines.drop_last());
        let line = lines.last();
        if text::trimmed(line).len() == 0 {
            before
        } else {
            match outside::json_value(outside::json_trimmed(line)) {
                Some(row) => before.push(container_in(row)),
                None => before,
            }
        }
    }
}

/// The contents of a list of containers.
pub open spec fn container_views(v: Seq<ContainerStatus>) -> Seq<ContainerStatusView> {
    v.map_values(|c: ContainerStatus| c@)
}

/// The value of the label `key`.
pub fn label(labels: &str, key: &str) -> (r: Option<String>)
    ensures
        text::opt_text(r) == label_value(labels@, key@),
{
    let pairs: Vec<String> = search::split_at_char(labels, ',');
    let ghost all = text::texts(pairs@);
    assert(all.skip(0) =~= all);
    for i in 0..pairs.len()
        invariant
            all == text::texts(pairs@),
            all == search::split(labels@, seq![',']),
            first_value(all.skip(i as int), key@) == first_value(all, key@),
    {
        assert(all.skip(i as int)[0] == pairs@[i as int]@);
        assert(all.skip(i as int).skip(1) =~= all.skip(i + 1));
        if let Some((k, v)) = search::split_once(pairs[i].as_str(), '=') {
            if text::same(k.as_str(), key) {
                return Some(v);
            }
        }
    }
    None
}

/// The health that a status text tells of.
pub fn health(status: &str) -> (r: Option<String>)
    ensures
        text::opt_text(r) == health_of(status@),
{
    if search::contains(status, "(healthy)") {
        Some("healthy".to_owned())
    } else if search::contains(status, "(unhealthy)") {
        Some("unhealthy".to_owned())
    } else if search::contains(status, "(health: starting)") {
        Some("starting".to_owned())
    } else {
        None
    }
}

/// The container that a row describes.
pub fn container(row: ContainerRow) -> (r: ContainerStatus)
    ensures
        r@ == container_of(
            row.labels@,
            row.status@,
            row.ports@,
            row.names@,
            row.image@,
            row.state@,
        ),
{
    let ports: Vec<String> = search::comma_separated(row.ports.as_str());
    let project: Option<String> = label(row.labels.as_str(), "com.docker.compose.project");
    let service: Option<String> = label(row.labels.as_str(), "com.docker.compose.service");
    let state_of_health: Option<String> = health(row.status.as_str());
    ContainerStatus {
        name: row.names,
        image: row.image,
        state: row.state,
        status: row.status,
        ports,
        compose_project: project,
        compose_service: service,
        health: state_of_health,
    }
}

/// The text of a member, empty where there is none.
fn column_text(v: &serde_json::Value, key: &str) -> (r: String)
    ensures
        r@ == column(outside::json_strings(*v), key@),
{
    match outside::member(v, key) {
        Some(s) => s,
        None => String::new(),
    }
}

/// `docker ps -a`, parsed with compose labels split out.
pub fn containers(out: &str) -> (r: Vec<ContainerStatus>)
    ensures
        container_views(r@) == containers_in(search::lines(out@)),
{
    let lines: Vec<String> = search::lines_of(out);
    let ghost all = text::texts(lines@);
    let mut list: Vec<ContainerStatus> = Vec::new();
    assert(container_views(list@) =~= containers_in(all.take(0)));
    for i in 0..lines.len()
        invariant
            all == text::texts(lines@),
            container_views(list@) == containers_in(all.take(i as int)),
    {
        assert(all.take(i + 1).drop_last() =~= all.take(i as int));
        let line: &str = lines[i].as_str();
        let ghost before = container_views(list@);
        if !text::trim(line).as_str().is_empty() {
            if let Ok(v) = outside::parse_value(line) {
                let c: ContainerStatus = container(
                    ContainerRow {
                        labels: column_text(&v, "Labels"),
                        status: column_text(&v, "Status"),
                        ports: column_text(&v, "Ports"),
                        names: column_text(&v, "Names"),
                        image: column_text(&v, "Image"),
                        state: column_text(&v, "State"),
                    },
                );
                list.push(c);
                assert(container_views(list@) =~= before.push(c@));
            }
        }
    }
    assert(all.take(all.len() as int) =~= all);
    list
}

// ---------------------------------------------------------------------------
// Compose projects
// ---------------------------------------------------------------------------

/// The project that a JSON object of `docker compose ls` describes.
pub open spec fn project_in(row: Map<Seq<char>, Seq<char>>) -> ComposeProjectView {
    ComposeProjectView {
        name: column(row, "Name"@),
        status: column(row, "Status"@),
        config_files: search::comma_list(column(row, "ConfigFiles"@)),
    }
}

/// The contents of a list of projects.
pub open spec fn project_views(v: Seq<ComposeProject>) -> Seq<ComposeProjectView> {
    v.map_values(|p: ComposeProject| p@)
}

/// The project that a row of `docker compose ls` describes.
pub fn compose_project(name: String, status: String, config_files: &str) -> (r: ComposeProject)
    ensures
        r@ == (ComposeProjectView {
            name: name@,
            status: status@,
            config_files: search::comma_list(config_files@),
        }),
{
    ComposeProject { name, status, config_files: search::comma_separated(config_files) }
}

/// `docker compose ls --all`; no project where the output is no JSON array.
pub fn compose_projects(out: &str) -> (r: Vec<ComposeProject>)
    ensures
        project_views(r@) == match outside::json_array(text::trimmed(out@)) {
            Some(rows) => rows.map_values(|row: Map<Seq<char>, Seq<char>>| project_in(row)),
            None => Seq::empty(),
        },
{
    let mut list: Vec<ComposeProject> = Vec::new();
    let t: String = text::trim(out);
    let rows: Vec<serde_json::Value> = match outside::parse_array(t.as_str()) {
        Ok(v) => v,
        Err(_) => {
            assert(project_views(list@) =~= Seq::<ComposeProjectView>::empty());
            return list;
        },
    };
    let ghost all = outside::json_rows(rows@);
    let ghost want = all.map_values(|row: Map<Seq<char>, Seq<char>>| project_in(row));
    for i in 0..rows.len()
        invariant
            all == outside::json_rows(rows@),
            want == all.map_values(|row: Map<Seq<char>, Seq<char>>| project_in(row)),
            project_views(list@) == want.take(i as int),
    {
        let ghost before = project_views(list@);
        let files: String = column_text(&rows[i], "ConfigFiles");
        let p: ComposeProject = compose_project(
            column_text(&rows[i], "Name"),
            column_text(&rows[i], "Status"),
            files.as_str(),
        );
        list.push(p);
        assert(all[i as int] == outside::json_strings(rows@[i as int]));
        assert(want[i as int] == p@);
        assert(project_views(list@) =~= before.push(p@));
        assert(want.take(i + 1) =~= want.take(i as int).push(want[i as int]));
    }
    assert(want.take(want.len() as int) =~= want);
    list
}

proof fn lemma_containers_concat(a: Seq<Seq<char>>, b: Seq<Seq<char>>)
    ensures
        containers_in(a + b) == containers_in(a) + containers_in(b),
    decreases b.len(),
{
    if b.len() == 0 {
        assert(a + b =~= a);
        assert(containers_in(a) + containers_in(b) =~= containers_in(a));
    } else {
        lemma_containers_concat(a, b.drop_last());
        assert((a + b).drop_last() =~= a + b.drop_last());
        assert((a + b).last() == b.last());
        assert(containers_in(a + b) =~= containers_in(a) + containers_in(b));
    }
}

/// A carriage return at the end of a line changes nothing.
proof fn lemma_containers_cr(lines: Seq<Seq<char>>)
    requires
        lines.len() > 0,
    ensures
        containers_in(lines.drop_last().push(search::without_cr(lines.last()))) == containers_in(
            lines,
        ),
{
    let line = lines.last();
    let cut = search::without_cr(line);
    let other = lines.drop_last().push(cut);
    assert(other.drop_last() =~= lines.drop_last());
    if line.len() > 0 && line.last() == '\r' {
        text::blank_is_all_space(line);
        text::blank_is_all_space(cut);
        assert forall|i: int| 0 <= i < line.len() && (text::trimmed(cut).len()
            == 0) implies text::is_space(#[trigger] line[i]) by {
            if i < cut.len() {
                assert(cut[i] == line[i]);
            }
        }
        assert forall|i: int| 0 <= i < cut.len() && (text::trimmed(line).len()
            == 0) implies text::is_space(#[trigger] cut[i]) by {
            assert(line[i] == cut[i]);
        }
        assert(outside::json_trimmed(line) == outside::json_trimmed(cut));
    }
}

/// Two outputs of `docker ps` with a line break between them list the containers of the first and
/// then those of the second.
pub proof fn joined_outputs_list_both(a: Seq<char>, b: Seq<char>)
    ensures
        containers_in(search::lines(a.push('\n') + b)) == containers_in(search::lines(a))
            + containers_in(search::lines(b)),
{
    search::lines_of_joined_texts(a, b);
    search::lines_of_ended_text(a);
    lemma_containers_concat(search::lines(a.push('\n')), search::lines(b));
    if search::split(a, seq!['\n']).last().len() == 0 {
        let ended = search::lines(a).push(Seq::empty());
        assert(ended.drop_last() =~= search::lines(a));
        assert(text::trimmed(ended.last()).len() == 0);
        assert(containers_in(ended) == containers_in(search::lines(a)));
    } else {
        lemma_containers_cr(search::lines(a));
    }
}

// ---------------------------------------------------------------------------
// What is read of containers
// ---------------------------------------------------------------------------

/// One more line adds one container behind the others where it holds a JSON value, and nothing where
/// it is blank or holds none.
pub proof fn one_line_is_one_container(lines: Seq<Seq<char>>, line: Seq<char>)
    ensures
        text::trimmed(line).len() > 0 ==> (outside::json_value(outside::json_trimmed(line)) matches
            Some(row) ==> containers_in(lines.push(line)) == containers_in(lines).push(
            container_in(row),
        )),
        outside::json_value(outside::json_trimmed(line)) is None ==> containers_in(lines.push(line))
            == containers_in(lines),
        text::trimmed(line).len() == 0 ==> containers_in(lines.push(line)) == containers_in(lines),
        containers_in(Seq::empty()).len() == 0,
{
    assert(lines.push(line).drop_last() =~= lines);
}

/// A container is shown with what its row says, each under its own heading; what the row does not say
/// is empty. Its project and its service are the values of the two compose labels.
pub proof fn container_shows_its_row(row: Map<Seq<char>, Seq<char>>)
    ensures
        ({
            let c = container_in(row);
            let said = |key: Seq<char>|
                if row.contains_key(key) {
                    row[key]
                } else {
                    Seq::<char>::empty()
                };
            &&& c.name == said("Names"@)
            &&& c.image == said("Image"@)
            &&& c.state == said("State"@)
            &&& c.status == said("Status"@)
            &&& c.ports == search::comma_list(said("Ports"@))
            &&& c.compose_project == label_value(said("Labels"@), "com.docker.compose.project"@)
            &&& c.compose_service == label_value(said("Labels"@), "com.docker.compose.service"@)
            &&& c.health == health_of(said("Status"@))
        }),
{
}

/// A compose project is shown with its name, its status and the list of its files.
pub proof fn project_shows_its_row(row: Map<Seq<char>, Seq<char>>)
    ensures
        row.contains_key("Name"@) ==> project_in(row).name == row["Name"@],
        row.contains_key("Status"@) ==> project_in(row).status == row["Status"@],
        row.contains_key("ConfigFiles"@) ==> project_in(row).config_files == search::comma_list(
            row["ConfigFiles"@],
        ),
        !row.contains_key("Name"@) ==> project_in(row).name.len() == 0,
        !row.contains_key("Status"@) ==> project_in(row).status.len() == 0,
        !row.contains_key("ConfigFiles"@) ==> project_in(row).config_files.len() == 0,
{
    if !row.contains_key("ConfigFiles"@) {
        let none = Seq::<char>::empty();
        let pieces = search::split(none, seq![',']);
        assert(pieces == seq![none]);
        assert(pieces.drop_last() =~= Seq::<Seq<char>>::empty());
        assert(search::kept(Seq::<Seq<char>>::empty()) =~= Seq::<Seq<char>>::empty());
        assert(pieces.last() == none);
        assert(text::start_trimmed(none) == none);
        assert(text::trimmed(none).len() == 0);
        assert(search::kept(pieces).len() == 0);
    }
}

/// The value of a label is what stands behind the first equals sign of the first pair with that key,
/// wherever the pair stands in the list; without such a pair there is none.
pub proof fn first_pair_with_the_key_counts(
    pairs: Seq<Seq<char>>,
    i: int,
    key: Seq<char>,
    value: Seq<char>,
)
    requires
        forall|k: int| 0 <= k < pairs.len() ==> !(#[trigger] pairs[k]).contains(','),
        !key.contains('='),
        0 <= i < pairs.len(),
        pairs[i] == key.push('=') + value,
        forall|k: int| 0 <= k < i ==> !search::has_prefix(#[trigger] pairs[k], key.push('=')),
    ensures
        label_value(search::joined(pairs, seq![',']), key) == Some(value),
{
    search::splitting_undoes_joining(pairs, ',');
    lemma_first_value(pairs, i, key, value);
}

proof fn lemma_first_value(pairs: Seq<Seq<char>>, i: int, key: Seq<char>, value: Seq<char>)
    requires
        !key.contains('='),
        0 <= i < pairs.len(),
        pairs[i] == key.push('=') + value,
        forall|k: int| 0 <= k < i ==> !search::has_prefix(#[trigger] pairs[k], key.push('=')),
    ensures
        first_value(pairs, key) == Some(value),
    decreases i,
{
    lemma_pair(pairs[0], key);
    if i == 0 {
        lemma_cut_pair(key, value);
    } else {
        assert(!search::has_prefix(pairs[0], key.push('=')));
        let rest = pairs.skip(1);
        assert forall|k: int| 0 <= k < i - 1 implies !search::has_prefix(
            #[trigger] rest[k],
            key.push('='),
        ) by {
            assert(rest[k] == pairs[k + 1]);
        }
        assert(rest[i - 1] == pairs[i]);
        lemma_first_value(rest, i - 1, key, value);
    }
}

proof fn lemma_cut_pair(key: Seq<char>, value: Seq<char>)
    requires
        !key.contains('='),
    ensures
        search::cut_once(key.push('=') + value, '=') == Some((key, value)),
{
    let s = key.push('=') + value;
    search::cut_holds_the_whole_text(s, '=');
    assert(s[key.len() as int] == '=');
    assert(s.contains('='));
    match search::cut_once(s, '=') {
        Some((a, b)) => {
            assert(s == a.push('=') + b);
            assert(s[a.len() as int] == '=');
            if a.len() < key.len() {
                assert(key[a.len() as int] == '=');
                assert(key.contains('='));
            }
            if a.len() > key.len() {
                assert(a[key.len() as int] == '=');
                assert(a.contains('='));
            }
            assert(a =~= s.take(key.len() as int));
            assert(key =~= s.take(key.len() as int));
            assert(b =~= s.skip(key.len() as int + 1));
            assert(value =~= s.skip(key.len() as int + 1));
        },
        None => {},
    }
}

proof fn lemma_pair(pair: Seq<char>, key: Seq<char>)
    ensures
        !search::has_prefix(pair, key.push('=')) ==> (search::cut_once(pair, '=') matches Some((k, v))
            ==> k != key),
{
    search::cut_holds_the_whole_text(pair, '=');
    if let Some((k, v)) = search::cut_once(pair, '=') {
        if k == key {
            assert(pair.take(key.len() as int + 1) =~= key.push('='));
        }
    }
}

/// Without a pair that has the key, a label has no value.
pub proof fn no_pair_no_value(pairs: Seq<Seq<char>>, key: Seq<char>)
    requires
        pairs.len() > 0,
        forall|k: int| 0 <= k < pairs.len() ==> !(#[trigger] pairs[k]).contains(','),
        forall|k: int|
            0 <= k < pairs.len() ==> !search::has_prefix(#[trigger] pairs[k], key.push('=')),
    ensures
        label_value(search::joined(pairs, seq![',']), key) is None,
{
    search::splitting_undoes_joining(pairs, ',');
    lemma_no_value(pairs, key);
}

proof fn lemma_no_value(pairs: Seq<Seq<char>>, key: Seq<char>)
    requires
        forall|k: int|
            0 <= k < pairs.len() ==> !search::has_prefix(#[trigger] pairs[k], key.push('=')),
    ensures
        first_value(pairs, key) is None,
    decreases pairs.len(),
{
    if pairs.len() > 0 {
        let rest = pairs.skip(1);
        assert forall|k: int| 0 <= k < rest.len() implies !search::has_prefix(
            #[trigger] rest[k],
            key.push('='),
        ) by {
            assert(rest[k] == pairs[k + 1]);
        }
        lemma_pair(pairs[0], key);
        assert(!search::has_prefix(pairs[0], key.push('=')));
        lemma_no_value(rest, key);
    }
}

/// The health of a container is what its status says in brackets, and it has none where the status
/// says nothing of it.
pub proof fn status_tells_the_health(status: Seq<char>)
    ensures
        search::has_text(status, "(healthy)"@) ==> health_of(status) == Some("healthy"@),
        !search::has_text(status, "(healthy)"@) && search::has_text(status, "(unhealthy)"@)
            ==> health_of(status) == Some("unhealthy"@),
        !search::has_text(status, "(healthy)"@) && !search::has_text(status, "(unhealthy)"@)
            && search::has_text(status, "(health: starting)"@) ==> health_of(status) == Some(
            "starting"@,
        ),
        !search::has_text(status, "(healthy)"@) && !search::has_text(status, "(unhealthy)"@)
            && !search::has_text(status, "(health: starting)"@) ==> health_of(status) is None,
{
}

/// Bringing a file up names the file, and the project exactly where there is one; it runs in the
/// background and takes down what else runs under the project.
pub proof fn bringing_up_names_file_and_project(file: Seq<char>, project: Seq<char>)
    ensures
        up_args(file, Some(project)) == seq![
            "compose"@,
            "-f"@,
            file,
            "-p"@,
            project,
            "up"@,
            "-d"@,
            "--remove-orphans"@,
        ],
        up_args(file, None) == seq!["compose"@, "-f"@, file, "up"@, "-d"@, "--remove-orphans"@],
{
    assert(up_args(file, Some(project)) =~= seq![
        "compose"@,
        "-f"@,
        file,
        "-p"@,
        project,
        "up"@,
        "-d"@,
        "--remove-orphans"@,
    ]);
    assert(up_args(file, None) =~= seq![
        "compose"@,
        "-f"@,
        file,
        "up"@,
        "-d"@,
        "--remove-orphans"@,
    ]);
}

/// The message for a command that failed tells the command, its exit code and what it wrote to its
/// standard error, without the white space around that.
pub proof fn failure_tells_command_code_and_error(
    program: Seq<char>,
    listed: Seq<char>,
    code: nat,
    stderr: Seq<char>,
)
    requires
        code > 0,
    ensures
        failure_message(program, listed, code as int, stderr) == program + " "@ + listed
            + " exited "@ + numbers::decimal(code) + ": "@ + text::trimmed(stderr),
        failure_message(program, listed, -code, stderr) == program + " "@ + listed + " exited "@ + (
        seq!['-'] + numbers::decimal(code)) + ": "@ + text::trimmed(stderr),
{
}

}
