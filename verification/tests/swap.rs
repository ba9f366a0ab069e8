use modeldeck::activate::{
    activate, advance, begin, render_compose, Action, Stage, Step, Swap, PAUSE, ROUNDS,
};
use modeldeck::kinds::{AccelKind, TiedFileRole};
use modeldeck::records::{ActivateResult, DownloadRequest, ServiceProfile, TiedFile};
use modeldeck::download::{
    ended_entry, failed_entry, relay, spawn_download, starting_entry, Event, Exit, Phase, Pipe,
    StreamBuffer, Work,
};
use modeldeck::tree::Config;

fn s(t: &str) -> String {
    t.to_string()
}

fn strings(v: &[&str]) -> Vec<String> {
    v.iter().map(|t| t.to_string()).collect()
}

fn config() -> Config {
    Config {
        secret: s("s"),
        jarvis: s("/jarvis"),
        accel: AccelKind::Rocm,
        port: 1,
        project: s("modeldeck-llm"),
        version: s("0"),
    }
}

fn tied(name: &str, content: &str) -> TiedFile {
    TiedFile { role: TiedFileRole::ChatTemplate, filename: s(name), content: s(content) }
}

fn profile() -> ServiceProfile {
    ServiceProfile {
        id: s("p1"),
        name: s("Qwen 3.6"),
        vm: s("amd"),
        model_dir_name: s("Qwen3-Q4_K.gguf"),
        service_name: s("llama"),
        container_name: s("llama-c"),
        host_port: Some(8080),
        compose_fragment: s("llama:\n  image: x\n\n  ports: []\n"),
        tied_files: vec![tied("t.jinja", "T"), tied("g.gbnf", "G")],
        ..ServiceProfile::default()
    }
}

#[test]
fn compose_documents() {
    let mut p = profile();
    assert_eq!(render_compose(&p), "services:\n  llama:\n    image: x\n\n    ports: []\n");
    p.compose_fragment = s("\n services:\n  a: {}\n\n");
    assert_eq!(render_compose(&p), "\n services:\n  a: {}");
    p.compose_fragment = s("name: x\nservices: {}");
    assert_eq!(render_compose(&p), "name: x\nservices: {}");
    p.compose_fragment = s("");
    assert_eq!(render_compose(&p), "services:\n\n");
}

#[test]
fn activation_puts_files_in_place() {
    let mut p = profile();
    p.dockerfile_name = Some(s("Dockerfile.llama"));
    p.dockerfile = Some(s("FROM x"));
    let swap = activate(&config(), &p);
    assert_eq!(
        swap.steps,
        vec![
            Step::CreateDir(s("/jarvis/services/Qwen3-Q4_K.gguf")),
            Step::Write(s("/jarvis/services/Qwen3-Q4_K.gguf/t.jinja"), s("T")),
            Step::Write(s("/jarvis/services/Qwen3-Q4_K.gguf/g.gbnf"), s("G")),
            Step::Write(s("/jarvis/Dockerfile.llama"), s("FROM x")),
            Step::Write(s("/jarvis/qwen-3-6.mdk.yml"), render_compose(&p)),
            Step::CreateDir(s("/jarvis/.modeldeck")),
        ]
    );
    assert_eq!(swap.refusal, None);
    assert_eq!(
        swap.up_args,
        strings(&[
            "compose",
            "-f",
            "/jarvis/qwen-3-6.mdk.yml",
            "-p",
            "modeldeck-llm",
            "up",
            "-d",
            "--remove-orphans"
        ])
    );
    assert_eq!(swap.record_path, "/jarvis/.modeldeck/active.json");
    let record: serde_json::Value = serde_json::from_slice(&swap.record).unwrap();
    assert_eq!(record["profile_id"], "p1");
    assert_eq!(record["name"], "Qwen 3.6");
    assert_eq!(record["service_name"], "llama");
    assert_eq!(record["compose_file"], "/jarvis/qwen-3-6.mdk.yml");
    assert_eq!(record.as_object().unwrap().len(), 4);
    assert!(String::from_utf8(swap.record.clone()).unwrap().contains("\n  \"name\": \"Qwen 3.6\""));
}

#[test]
fn a_name_without_letters_still_gets_a_compose_file() {
    let mut p = profile();
    p.name = s("äöü");
    p.dockerfile_name = Some(s("Dockerfile.x"));
    let swap = activate(&config(), &p);
    assert_eq!(swap.steps.len(), 5);
    assert_eq!(swap.steps[3], Step::Write(s("/jarvis/profile.mdk.yml"), render_compose(&p)));
}

fn places(swap: &Swap) -> Vec<String> {
    swap.steps
        .iter()
        .map(|step| match step {
            Step::CreateDir(p) => p.clone(),
            Step::Write(p, _) => p.clone(),
        })
        .collect()
}

#[test]
fn everything_is_put_below_the_root() {
    let mut p = profile();
    p.dockerfile_name = Some(s(".hidden"));
    p.dockerfile = Some(s(""));
    p.name = s("../../etc");
    let swap = activate(&config(), &p);
    assert!(places(&swap).iter().all(|p| p.starts_with("/jarvis/") && !p.contains("..")));
    assert!(places(&swap).contains(&s("/jarvis/etc.mdk.yml")));
}

#[test]
fn models_do_not_share_tied_files() {
    let a = profile();
    let mut b = profile();
    b.model_dir_name = s("other.gguf");
    let dir = "/jarvis/services/other.gguf";
    assert!(!places(&activate(&config(), &a)).iter().any(|p| p.starts_with(dir)));
    assert!(places(&activate(&config(), &b)).contains(&format!("{dir}/t.jinja")));
}

#[test]
fn unsafe_profiles_are_refused() {
    let cfg = config();
    let mut p = profile();
    p.model_dir_name = s("../x");
    let swap = activate(&cfg, &p);
    assert!(swap.steps.is_empty());
    assert_eq!(swap.refusal, Some(s("unsafe model_dir_name: ../x")));

    let mut p = profile();
    p.service_name = s("  ");
    let swap = activate(&cfg, &p);
    assert!(swap.steps.is_empty());
    assert_eq!(swap.refusal, Some(s("profile has no service_name")));

    let mut p = profile();
    p.tied_files.push(tied("a/b", ""));
    p.tied_files.push(tied("fine", ""));
    let swap = activate(&cfg, &p);
    assert_eq!(swap.steps.len(), 3);
    assert_eq!(swap.refusal, Some(s("unsafe tied filename: a/b")));

    let mut p = profile();
    p.dockerfile_name = Some(s("..")); 
    p.dockerfile = Some(s("FROM x"));
    let swap = activate(&cfg, &p);
    assert_eq!(swap.steps.len(), 3);
    assert_eq!(swap.refusal, Some(s("unsafe dockerfile name: ..")));
    p.dockerfile = None;
    assert_eq!(activate(&cfg, &p).refusal, None);
}

/// Drives an activation, with an answer for each kind of work.
fn drive(
    swap: &Swap,
    up: Result<&str, &str>,
    healthy_at: Option<usize>,
    logs: Result<&str, &str>,
) -> (Vec<String>, Result<ActivateResult, String>) {
    let mut seen: Vec<String> = Vec::new();
    let mut probes: usize = 0;
    let (mut stage, mut action): (Stage, Action) = begin(swap);
    loop {
        let outcome: Result<String, String> = match action {
            Action::Place(Step::CreateDir(p)) => {
                seen.push(format!("dir {p}"));
                Ok(s(""))
            }
            Action::Place(Step::Write(p, _)) => {
                seen.push(format!("file {p}"));
                Ok(s(""))
            }
            Action::Up(_) => {
                seen.push(s("up"));
                up.map(s).map_err(s)
            }
            Action::Record(p, _) => {
                seen.push(format!("record {p}"));
                Err(s("disk full"))
            }
            Action::Probe(args) => {
                seen.push(format!("probe {}", args.last().unwrap()));
                probes += 1;
                if healthy_at == Some(probes) { Ok(s("")) } else { Err(s("refused")) }
            }
            Action::Pause(secs) => {
                seen.push(format!("pause {secs}"));
                Ok(s(""))
            }
            Action::Logs(args) => {
                seen.push(format!("logs {}", args[2]));
                logs.map(s).map_err(s)
            }
            Action::Finish(r) => return (seen, r),
        };
        let next = advance(swap, stage, outcome);
        stage = next.0;
        action = next.1;
    }
}

#[test]
fn a_healthy_swap() {
    let swap = activate(&config(), &profile());
    let (seen, r) = drive(&swap, Ok(" started \n"), Some(4), Ok("one\ntwo\n"));
    assert_eq!(
        seen[5..],
        strings(&[
            "up",
            "record /jarvis/.modeldeck/active.json",
            "probe http://127.0.0.1:8080/health",
            "probe http://127.0.0.1:8080/v1/models",
            "pause 3",
            "probe http://127.0.0.1:8080/health",
            "probe http://127.0.0.1:8080/v1/models",
            "logs 40",
        ])
    );
    assert_eq!(
        r,
        Ok(ActivateResult {
            ok: true,
            message: s("activated Qwen 3.6 (started)"),
            health_ok: true,
            log_tail: strings(&["one", "two"]),
        })
    );
}

#[test]
fn a_swap_that_never_gets_healthy() {
    let swap = activate(&config(), &profile());
    let (seen, r) = drive(&swap, Ok(""), None, Err("gone"));
    assert_eq!(seen.iter().filter(|t| t.starts_with("probe")).count(), 80);
    assert_eq!(seen.iter().filter(|t| t.starts_with("pause")).count(), 40);
    assert_eq!((ROUNDS, PAUSE), (40, 3));
    let r = r.unwrap();
    assert!(r.ok && !r.health_ok && r.log_tail.is_empty());
    assert_eq!(r.message, "activated Qwen 3.6 ()");
}

#[test]
fn a_swap_without_a_port_counts_as_healthy() {
    let mut p = profile();
    p.host_port = None;
    let swap = activate(&config(), &p);
    let (seen, r) = drive(&swap, Ok(""), None, Ok(""));
    assert!(!seen.iter().any(|t| t.starts_with("probe")));
    assert!(r.unwrap().health_ok);
}

#[test]
fn a_swap_whose_compose_run_fails() {
    let swap = activate(&config(), &profile());
    let log: String = (0..50).map(|i| format!("line {i}\n")).collect();
    let (seen, r) = drive(&swap, Err("no image"), Some(1), Ok(&log));
    assert_eq!(seen[5..], strings(&["up", "record /jarvis/.modeldeck/active.json", "logs 60"]));
    let r = r.unwrap();
    assert!(!r.ok && !r.health_ok);
    assert_eq!(r.message, "compose up failed: no image");
    assert_eq!(r.log_tail.len(), 40);
    assert_eq!(r.log_tail[0], "line 49");
    assert_eq!(r.log_tail[39], "line 10");
    let (_, short) = drive(&swap, Err("x"), None, Ok("a\nb"));
    assert_eq!(short.unwrap().log_tail, strings(&["b", "a"]));
}

#[test]
fn a_refused_swap_stops_behind_what_was_written() {
    let mut p = profile();
    p.tied_files.push(tied("a/b", ""));
    let swap = activate(&config(), &p);
    let (seen, r) = drive(&swap, Ok(""), None, Ok(""));
    assert_eq!(seen.len(), 3);
    assert_eq!(r, Err(s("unsafe tied filename: a/b")));
    let refused = activate(&config(), &ServiceProfile::default());
    assert_eq!(drive(&refused, Ok(""), None, Ok("")).1, Err(s("unsafe model_dir_name: ")));
}

#[test]
fn a_step_that_fails_ends_the_swap() {
    let swap = activate(&config(), &profile());
    let (stage, _) = begin(&swap);
    let (stage, action) = advance(&swap, stage, Err(s("disk full")));
    assert_eq!(stage, Stage::Ended);
    assert_eq!(action, Action::Finish(Err(s("disk full"))));
}

fn request(repo: &str) -> DownloadRequest {
    DownloadRequest { repo: s(repo), ..DownloadRequest::default() }
}

#[test]
fn download_commands() {
    let cfg = config();
    let mut req = request("unsloth/Qwen3-GGUF");
    let d = spawn_download(&cfg, &req).unwrap();
    assert_eq!(d.dest_name, "Qwen3-GGUF");
    assert_eq!(d.dest, "/jarvis/models/Qwen3-GGUF");
    assert_eq!(
        d.args,
        strings(&["download", "unsloth/Qwen3-GGUF", "--local-dir", "/jarvis/models/Qwen3-GGUF"])
    );
    assert_eq!(
        d.env,
        vec![
            (s("HF_HUB_ENABLE_HF_TRANSFER"), s("1")),
            (s("HF_HOME"), s("/jarvis/hf-cache")),
        ]
    );
    req.file = Some(s("*Q4_K_M.gguf"));
    req.dest = Some(s("mine"));
    req.hf_token = Some(s("t"));
    let d = spawn_download(&cfg, &req).unwrap();
    assert_eq!(d.args[2], "*Q4_K_M.gguf");
    assert_eq!(d.args[4], "/jarvis/models/mine");
    assert_eq!(d.env[2], (s("HF_TOKEN"), s("t")));
    req.dest = Some(s("../mine"));
    req.hf_token = Some(s(""));
    let d = spawn_download(&cfg, &req).unwrap();
    assert_eq!(d.dest_name, "Qwen3-GGUF");
    assert_eq!(d.env.len(), 2);
    let d = spawn_download(&cfg, &request("org/modèle 7b")).unwrap();
    assert_eq!((d.dest_name.as_str(), d.dest.as_str()), ("modèle 7b", "/jarvis/models/modèle 7b"));
    for repo in ["a/..", "a/.", "a/", "..", "/"] {
        let d = spawn_download(&cfg, &request(repo)).unwrap();
        assert_eq!((d.dest_name.as_str(), d.dest.as_str()), ("model", "/jarvis/models/model"));
    }
    assert_eq!(spawn_download(&cfg, &request(" \t")), Err(s("empty repo")));
}

fn relayed(out: &[&str], err: &[&str], exit: Exit, receiver: usize) -> Vec<String> {
    let mut sent: Vec<String> = Vec::new();
    let mut out = out.iter();
    let mut err = err.iter();
    let mut exit = Some(exit);
    let mut phase = Phase::Starting;
    let mut event = Event::Begun;
    loop {
        let (next, work) = relay("dest", phase, event);
        event = match work {
            Work::Send(m) => {
                sent.push(m);
                Event::Sent(sent.len() < receiver)
            }
            Work::Read(Pipe::Stdout) => Event::Line(out.next().map(|l| s(l))),
            Work::Read(Pipe::Stderr) => Event::Line(err.next().map(|l| s(l))),
            Work::Wait => Event::Exited(exit.take().unwrap()),
            Work::Done => return sent,
        };
        phase = next;
    }
}

#[test]
fn download_progress() {
    assert_eq!(
        relayed(&["a", "b"], &["c"], Exit::Success, 100),
        strings(&["Downloading dest ...", "a", "b", "c", "✅ download complete"])
    );
    assert_eq!(
        relayed(&[], &[], Exit::Code(Some(2)), 100),
        strings(&["Downloading dest ...", "❌ hf exited 2"])
    );
    assert_eq!(relayed(&[], &[], Exit::Code(None), 100)[1], "❌ hf exited -1");
    assert_eq!(relayed(&[], &[], Exit::Lost(s("gone")), 100)[1], "❌ gone");
    // A receiver that leaves: one line of each output is tried, and the end is still told.
    assert_eq!(
        relayed(&["a", "b"], &["c", "d"], Exit::Success, 0),
        strings(&["Downloading dest ...", "a", "c", "✅ download complete"])
    );
}

#[test]
fn the_event_stream_is_read_line_by_line() {
    let mut b = StreamBuffer::new();
    assert!(b.take_in("data: one").is_empty());
    assert_eq!(b.take_in("\n\n: keep-alive\ndata:  \nevent: x\ndata:two \r\nda"), strings(&["[hf] one", "[hf] two"]));
    assert_eq!(b.pending, "da");
    assert_eq!(b.take_in_bytes("ta: dr\u{e9}i\n".as_bytes()), strings(&["[hf] dréi"]));
    assert_eq!(b.pending, "");
}

#[test]
fn chunks_of_the_stream_do_not_matter() {
    let text = "data: a\n\ndata: bb\ndata:\nx\ndata: c";
    let mut whole = StreamBuffer::new();
    let expected = whole.take_in(text);
    for cut in 0..text.len() {
        let mut b = StreamBuffer::new();
        let mut got = b.take_in(&text[..cut]);
        got.extend(b.take_in(&text[cut..]));
        assert_eq!(got, expected);
        assert_eq!(b.pending, whole.pending);
    }
}

#[test]
fn bytes_that_are_no_text_are_shown_as_such() {
    let mut b = StreamBuffer::new();
    assert_eq!(b.take_in_bytes(b"data: a\xffb\n"), strings(&["[hf] a\u{fffd}b"]));
}

#[test]
fn download_log_entries() {
    assert_eq!(starting_entry("r"), "Starting download: r");
    assert_eq!(failed_entry("r", "e"), "download r: e");
    assert_eq!(ended_entry("r"), "Download stream ended: r");
}
