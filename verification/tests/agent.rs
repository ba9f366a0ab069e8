use modeldeck::agent::{default_tail, info, logs_payload, Ack};
use modeldeck::docker::{
    compose_down, compose_project, compose_projects, compose_projects_args, compose_up, container,
    containers, containers_args, docker_version, exit_message, health, label, logs, logs_args, restart_container,
    run_ok, version_args, ContainerRow, Out,
};
use modeldeck::gpu::{
    card_device, gpu_stats, nvidia_args, nvidia_stats, rocm_card, rocm_stats, CardFiles,
};
use modeldeck::kinds::{AccelKind, ModelFormat};
use modeldeck::models::{
    dir_size, enters, is_met, list_models, sort_by_key, sort_models, walk_weights, weights_model, Aim, CacheEntry, Entry, Meta, Node,
    CACHE_DEPTH, WEIGHTS_DEPTH,
};
use modeldeck::records::{ContainerStatus, GpuStats, ModelFile, Timestamp};
use modeldeck::tree::Config;

fn s(t: &str) -> String {
    t.to_string()
}

fn strings(v: &[&str]) -> Vec<String> {
    v.iter().map(|t| t.to_string()).collect()
}

fn config() -> Config {
    Config {
        secret: s("s"),
        jarvis: s("/jarvis"),
        accel: AccelKind::Cuda,
        port: 1,
        project: s("modeldeck-llm"),
        version: s("0.1.0"),
    }
}

#[test]
fn command_lines() {
    assert_eq!(version_args(), strings(&["version", "--format", "{{.Server.Version}}"]));
    assert_eq!(
        containers_args(),
        strings(&["ps", "-a", "--no-trunc", "--format", "{{json .}}"])
    );
    assert_eq!(
        compose_projects_args(),
        strings(&["compose", "ls", "--all", "--format", "json"])
    );
    assert_eq!(
        compose_up("f.yml", Some("p")),
        strings(&["compose", "-f", "f.yml", "-p", "p", "up", "-d", "--remove-orphans"])
    );
    assert_eq!(
        compose_up("f.yml", None),
        strings(&["compose", "-f", "f.yml", "up", "-d", "--remove-orphans"])
    );
    assert_eq!(compose_down("p"), strings(&["compose", "-p", "p", "down"]));
    assert_eq!(restart_container("c"), strings(&["restart", "c"]));
    assert_eq!(logs_args("c", 60), strings(&["logs", "--tail", "60", "c"]));
    assert_eq!(card_device(3), "/sys/class/drm/card3/device");
    assert_eq!(nvidia_args()[1], "--format=csv,noheader,nounits");
}

#[test]
fn command_results() {
    let ok = Out::new(Some(0), b"out\n", &[b'e', 0xff]);
    assert_eq!(ok.stderr, "e\u{fffd}");
    assert_eq!(logs(&ok), "out\ne\u{fffd}");
    assert_eq!(docker_version(&Some(Out::new(Some(0), b" 27.1 \n", b""))), "27.1");
    assert_eq!(docker_version(&None), "");
    assert_eq!(run_ok("docker", &strings(&["ps"]), ok), Ok(s("out\n")));
    assert_eq!(exit_message("p", "[]", 2, " e\n"), "p [] exited 2: e");
    let killed = Out::new(None, b"", b" no such \"thing\"\n");
    assert_eq!(killed.code, -1);
    assert_eq!(
        run_ok("docker", &strings(&["ps", "a\"b"]), killed),
        Err(s("docker [\"ps\", \"a\\\"b\"] exited -1: no such \"thing\""))
    );
}

#[test]
fn labels_and_health() {
    let l = "a=1,com.docker.compose.project=jarvis,b,com.docker.compose.project=other,c=x=y";
    assert_eq!(label(l, "com.docker.compose.project"), Some(s("jarvis")));
    assert_eq!(label(l, "c"), Some(s("x=y")));
    assert_eq!(label(l, "b"), None);
    assert_eq!(label("", "b"), None);
    assert_eq!(health("Up 2 hours (healthy)"), Some(s("healthy")));
    assert_eq!(health("Up 2 hours (unhealthy)"), Some(s("unhealthy")));
    assert_eq!(health("Up 1 second (health: starting)"), Some(s("starting")));
    assert_eq!(health("Exited (0) 3 days ago"), None);
}

#[test]
fn joined_outputs_list_both_containers() {
    let a = "{\"Names\":\"a\"}\n{\"Names\":\"b\"}\n";
    let b = "{\"Names\":\"c\"}";
    let names = |out: &str| -> Vec<String> {
        containers(out).into_iter().map(|c| c.name).collect()
    };
    assert_eq!(names(&format!("{a}\n{b}")), strings(&["a", "b", "c"]));
    assert_eq!(names(&format!("{b}\n{a}")), strings(&["c", "a", "b"]));
    assert_eq!(names(&format!("\n{b}")), strings(&["c"]));
    assert_eq!(names(&format!("{b}\r\n{b}\r")), strings(&["c", "c"]));
    assert_eq!(names(&format!("{b} \t\r\r")), strings(&["c"]));
}

#[test]
fn containers_are_read_from_json_lines() {
    let out = "{\"Names\":\"llama\",\"Image\":\"img\",\"State\":\"running\",\"Status\":\"Up (healthy)\",\
        \"Ports\":\"0.0.0.0:8080->8080/tcp, :::8080->8080/tcp\",\
        \"Labels\":\"com.docker.compose.project=p,com.docker.compose.service=llama\"}\n\
        \n   \nnot json\n{\"Names\":7}\n[]\n";
    let list = containers(out);
    assert_eq!(list.len(), 3);
    assert_eq!(
        list[0],
        ContainerStatus {
            name: s("llama"),
            image: s("img"),
            state: s("running"),
            status: s("Up (healthy)"),
            ports: strings(&["0.0.0.0:8080->8080/tcp", ":::8080->8080/tcp"]),
            compose_project: Some(s("p")),
            compose_service: Some(s("llama")),
            health: Some(s("healthy")),
        }
    );
    assert_eq!(list[1], ContainerStatus::default());
    assert_eq!(list[2], ContainerStatus::default());
    let row = ContainerRow {
        labels: s("com.docker.compose.service=x"),
        status: s("Up"),
        ports: s(""),
        names: s("n"),
        image: s("i"),
        state: s("exited"),
    };
    let c = container(row);
    assert_eq!(c.compose_service, Some(s("x")));
    assert_eq!(c.compose_project, None);
    assert_eq!(c.name, "n");
}

#[test]
fn compose_projects_are_read_from_a_json_array() {
    let out = "\n[{\"Name\":\"jarvis\",\"Status\":\"running(2)\",\"ConfigFiles\":\"/a.yml, /b.yml\"},{}]\n";
    let list = compose_projects(out);
    assert_eq!(list.len(), 2);
    assert_eq!(list[0].name, "jarvis");
    assert_eq!(list[0].status, "running(2)");
    assert_eq!(list[0].config_files, strings(&["/a.yml", "/b.yml"]));
    assert_eq!(list[1].name, "");
    assert!(compose_projects("{}").is_empty());
    assert!(compose_projects("").is_empty());
    assert_eq!(compose_project(s("n"), s("s"), "x").config_files, strings(&["x"]));
}

#[test]
fn nvidia_gpus() {
    let out = "0, NVIDIA GeForce RTX 3090, 24576, 1024, 17, 45\n\nshort, line\n1, B, x, , [N/A], 50, extra\n";
    let v = nvidia_stats(out);
    assert_eq!(
        v,
        vec![
            GpuStats {
                index: 0,
                name: s("NVIDIA GeForce RTX 3090"),
                mem_total_mb: 24576,
                mem_used_mb: 1024,
                util_pct: Some(s("17")),
                temp_c: Some(s("45")),
            },
            GpuStats {
                index: 1,
                name: s("B"),
                mem_total_mb: 0,
                mem_used_mb: 0,
                util_pct: Some(s("[N/A]")),
                temp_c: Some(s("50")),
            },
        ]
    );
    assert_eq!(gpu_stats(AccelKind::Cuda, &Some(s(out)), &Vec::new()), v);
    assert!(gpu_stats(AccelKind::Cuda, &None, &Vec::new()).is_empty());
    assert!(gpu_stats(AccelKind::Cpu, &Some(s(out)), &Vec::new()).is_empty());
}

#[test]
fn amd_gpus() {
    let card = CardFiles {
        mem_info_vram_total: Some(s("17163091968\n")),
        mem_info_vram_used: None,
        gpu_busy_percent: Some(s("3\n")),
    };
    let cards = vec![
        None,
        Some(card),
        Some(CardFiles {
            mem_info_vram_total: Some(s("?")),
            mem_info_vram_used: None,
            gpu_busy_percent: None,
        }),
    ];
    let v = rocm_stats(&cards);
    assert_eq!(v.len(), 1);
    assert_eq!(v[0].index, 1);
    assert_eq!(v[0].name, "AMD GPU");
    assert_eq!(v[0].mem_total_mb, 16368);
    assert_eq!(v[0].mem_used_mb, 0);
    assert_eq!(v[0].util_pct, Some(s("3")));
    assert_eq!(v[0].temp_c, None);
    assert_eq!(gpu_stats(AccelKind::Rocm, &None, &cards), v);
    let busy = CardFiles {
        mem_info_vram_total: Some(s("2097152")),
        mem_info_vram_used: Some(s(" 1572864 ")),
        gpu_busy_percent: None,
    };
    let g = rocm_card(7, &busy).unwrap();
    assert_eq!((g.index, g.mem_total_mb, g.mem_used_mb, g.util_pct), (7, 2, 1, None));
}

fn file(name: &str, len: u64) -> Entry {
    Entry { name: s(name), node: Node::File(Some(Meta { len, modified: None })) }
}

fn dir(name: &str, inner: Vec<Entry>) -> Entry {
    Entry { name: s(name), node: Node::Dir(Some(inner)) }
}

#[test]
fn weights_are_found() {
    let at = Timestamp { secs: 5, nanos: 6 };
    let entries = vec![
        file("b-Q4_0.gguf", 10),
        file("readme.md", 1),
        dir(".cache", vec![file("hidden.gguf", 1)]),
        dir("sub", vec![file("A.SafeTensors", 7)]),
        Entry {
            name: s("link.gguf"),
            node: Node::Link(Some(Meta { len: 3, modified: Some(at) }), Some(Aim { len: 99, is_dir: false, met: false })),
        },
        Entry { name: s("x.gguf"), node: Node::File(None) },
        Entry { name: s("y.gguf"), node: Node::Unknown },
        Entry { name: s("locked"), node: Node::Dir(None) },
    ];
    let mut out: Vec<ModelFile> = Vec::new();
    walk_weights("/m", &entries, 0, WEIGHTS_DEPTH, &mut out);
    let paths: Vec<&str> = out.iter().map(|m| m.path.as_str()).collect();
    assert_eq!(paths, vec!["/m/b-Q4_0.gguf", "/m/sub/A.SafeTensors", "/m/link.gguf", "/m/x.gguf"]);
    assert_eq!(out[0].quant, Some(s("Q4_0")));
    assert_eq!(out[0].size_bytes, 10);
    assert_eq!(out[0].format, Some(ModelFormat::Gguf));
    assert_eq!(out[1].format, Some(ModelFormat::Safetensors));
    assert_eq!(out[1].filename, "A.SafeTensors");
    assert_eq!((out[2].size_bytes, out[2].modified), (3, Some(at)));
    assert_eq!((out[3].size_bytes, out[3].modified), (0, None));
    let m = weights_model("/m", "N", "n.gguf", ModelFormat::Gguf, None, &None).unwrap();
    assert_eq!((m.path.as_str(), m.filename.as_str(), m.size_bytes), ("/m/N", "N", 0));
    assert_eq!(weights_model("/m", "N.gguf", "n.bin", ModelFormat::Gguf, None, &None), None);
    assert!(enters("sub") && !enters(".cache"));
}

#[test]
fn weights_too_deep_are_left_out() {
    let mut inner = vec![file("deep.gguf", 1)];
    for k in 0..5 {
        let mut out: Vec<ModelFile> = Vec::new();
        walk_weights("/m", &inner, 0, 4, &mut out);
        assert_eq!(out.len(), 1, "{k}");
        inner = vec![dir("d", inner)];
    }
    let mut out: Vec<ModelFile> = Vec::new();
    walk_weights("/m", &inner, 0, 4, &mut out);
    assert!(out.is_empty());
    walk_weights("/m", &vec![file("a.gguf", 1)], 5, 4, &mut out);
    assert!(out.is_empty());
}

fn link(name: &str, size: u64, inside: bool) -> Entry {
    let meta = Meta { len: 1, modified: None };
    Entry { name: s(name), node: Node::Link(Some(meta), Some(Aim { len: size, is_dir: false, met: inside })) }
}

#[test]
fn files_count_once() {
    // A snapshot links to the blobs beside it.
    let repo = vec![
        dir("blobs", vec![file("b", 100)]),
        dir("snapshots", vec![dir("s", vec![link("f", 100, true)])]),
    ];
    assert_eq!(dir_size(&repo, 0, CACHE_DEPTH), Some(100));
    // A link to a directory counts as what the file system says of that directory.
    let aim = Aim { len: 4096, is_dir: true, met: true };
    let linked = vec![
        dir("d", vec![file("a", 1)]),
        Entry { name: s("l"), node: Node::Link(None, Some(aim)) },
    ];
    assert_eq!(dir_size(&linked, 0, CACHE_DEPTH), Some(4097));
    assert!(is_met(b"/hub/models--a--b", b"/hub/models--a--b/blobs/b", CACHE_DEPTH));
    assert!(!is_met(b"/hub/models--a--b", b"/hub/models--a--bc/blobs/b", CACHE_DEPTH));
    assert!(!is_met(b"/hub/models--a--b", b"/data/b", CACHE_DEPTH));
    assert!(is_met(b"/r", b"/r", 0));
    assert!(is_met(b"/r", b"/r/a", 0));
    assert!(!is_met(b"/r", b"/r/a/b", 0));
    assert!(is_met(b"/r", b"/r/a/b", 1));
}

#[test]
fn directory_sizes() {
    let entries = vec![
        file("a", 5),
        link("l", 100, false),
        link("into", 100, true),
        Entry { name: s("broken"), node: Node::Link(None, None) },
        dir("d", vec![file("b", 7), Entry { name: s("u"), node: Node::Unknown }]),
        Entry { name: s("e"), node: Node::Dir(None) },
        Entry { name: s("f"), node: Node::File(None) },
    ];
    assert_eq!(dir_size(&entries, 0, CACHE_DEPTH), Some(112));
    assert_eq!(dir_size(&entries, 0, 0), Some(105));
    assert_eq!(dir_size(&entries, 7, 6), Some(0));
    assert_eq!(dir_size(&vec![file("a", u64::MAX), file("b", 1)], 0, 6), None);
    assert_eq!(dir_size(&vec![file("a", u64::MAX), file("b", 0)], 0, 6), Some(u64::MAX));
}

fn named(name: &str, path: &str) -> ModelFile {
    ModelFile { filename: s(name), path: s(path), ..ModelFile::default() }
}

#[test]
fn models_are_sorted_stably() {
    let list = vec![named("b", "1"), named("A", "2"), named("B", "3"), named("ab", "4"), named("a", "5")];
    let mut expected = list.clone();
    expected.sort_by(|a, b| a.filename.to_lowercase().cmp(&b.filename.to_lowercase()));
    let sorted = sort_models(list);
    assert_eq!(sorted, expected);
    let paths: Vec<&str> = sorted.iter().map(|m| m.path.as_str()).collect();
    assert_eq!(paths, vec!["2", "5", "4", "1", "3"]);
    let keyed = vec![(s("b"), named("x", "1")), (s("a"), named("y", "2")), (s("b"), named("z", "3"))];
    let order: Vec<String> = sort_by_key(keyed).into_iter().map(|m| m.path).collect();
    assert_eq!(order, strings(&["2", "1", "3"]));
    let names = ["Ä", "z", "é", "E", "𝒳", "ﬀ", "", "zz", "İ"];
    let mixed: Vec<ModelFile> = names.iter().map(|n| named(n, n)).collect();
    let mut wanted = mixed.clone();
    wanted.sort_by(|a, b| a.filename.to_lowercase().cmp(&b.filename.to_lowercase()));
    assert_eq!(sort_models(mixed), wanted);
}

#[test]
fn all_models_are_listed() {
    let cfg = config();
    let models = Some(vec![file("z-F16.gguf", 2)]);
    let hub = Some(vec![
        CacheEntry { name: s("models--Org--My--Repo"), contents: Some(vec![file("blob", 9)]) },
        CacheEntry { name: s("datasets--x"), contents: Some(vec![file("blob", 9)]) },
        CacheEntry { name: s("models--none"), contents: None },
    ]);
    let list = list_models(&cfg, &models, &hub).unwrap();
    let shown: Vec<(&str, &str, u64)> =
        list.iter().map(|m| (m.filename.as_str(), m.path.as_str(), m.size_bytes)).collect();
    assert_eq!(
        shown,
        vec![
            ("none", "/jarvis/hf-cache/hub/models--none", 0),
            ("Org/My/Repo", "/jarvis/hf-cache/hub/models--Org--My--Repo", 9),
            ("z-F16.gguf", "/jarvis/models/z-F16.gguf", 2),
        ]
    );
    assert_eq!(list[1].format, Some(ModelFormat::HfRepo));
    assert_eq!(list[1].quant, None);
    assert_eq!(list_models(&cfg, &None, &None), Some(Vec::new()));
    let huge = Some(vec![CacheEntry {
        name: s("models--x"),
        contents: Some(vec![file("a", u64::MAX), file("b", 1)]),
    }]);
    assert_eq!(list_models(&cfg, &None, &huge), None);
}

#[test]
fn snapshot_and_acknowledgements() {
    let cfg = config();
    let i = info(&cfg, &None, &Some(s("vm107\n")), s("27.1"), Vec::new());
    assert_eq!(i.hostname, "vm107");
    assert_eq!(i.accel, "cuda");
    assert_eq!(i.jarvis_path, "/jarvis");
    assert_eq!(i.models_dir, "/jarvis/models");
    assert_eq!(i.docker_version, "27.1");
    assert_eq!(i.agent_version, "0.1.0");
    assert_eq!(info(&cfg, &Some(s(" h ")), &Some(s("f")), s(""), Vec::new()).hostname, "h");
    assert_eq!(info(&cfg, &None, &None, s(""), Vec::new()).hostname, "");
    assert_eq!(Ack::ok(), Ack { ok: true, message: s("") });
    assert_eq!(Ack::msg(s("m")), Ack { ok: true, message: s("m") });
    assert_eq!(default_tail(), 200);
    let p = logs_payload(s("c"), s("text"));
    assert_eq!((p.path.as_str(), p.content.as_str()), ("c", "text"));
}
