use std::path::{Component, Path};

use modeldeck::files::{
    delete_model, escape_message, locate, read_file, reading_failed, refusal, write_file, writing_failed, Lookup,
};
use modeldeck::paths::{
    ancestors, confine, confine_target, goes_up, join, lead_of, next_path, parent, parts_of, target_of,
    within, ConfineError, Lead, Part, Seen, Target,
};
use modeldeck::records::FilePayload;
use modeldeck::tree::{authorized, child, AgentEnv, Config, DEFAULT_PORT};
use modeldeck::kinds::AccelKind;

const SAMPLES: [&str; 24] = [
    "", "/", "//", ".", "./", "./a", "a", "a/", "a//b", "a/./b", "a/b/.", "/a", "/a/b/", "../a",
    "a/../b", "..", "/..", "a/..", "...", ".a", "./.", "/.", "a/b/c.gguf", "/x/./",
];

fn bytes(p: &Path) -> Vec<u8> {
    p.as_os_str().as_encoded_bytes().to_vec()
}

fn std_parts(p: &str) -> Vec<Part> {
    Path::new(p)
        .components()
        .map(|c| match c {
            Component::RootDir => Part::Root,
            Component::CurDir => Part::Current,
            Component::ParentDir => Part::Parent,
            Component::Normal(n) => Part::Normal(n.as_encoded_bytes().to_vec()),
            Component::Prefix(_) => panic!("no prefixes here"),
        })
        .collect()
}

#[test]
fn components_agree_with_std() {
    for s in SAMPLES {
        assert_eq!(parts_of(s.as_bytes()), std_parts(s), "{s:?}");
        assert_eq!(
            goes_up(s.as_bytes()),
            Path::new(s).components().any(|c| matches!(c, Component::ParentDir)),
            "{s:?}"
        );
    }
}

#[test]
fn parents_agree_with_std() {
    for s in SAMPLES {
        assert_eq!(parent(s.as_bytes()), Path::new(s).parent().map(bytes), "{s:?}");
    }
}

#[test]
fn joining_agrees_with_std() {
    for a in SAMPLES {
        for b in SAMPLES {
            let whole = Path::new(a).join(b);
            assert_eq!(join(a.as_bytes(), b.as_bytes()), bytes(&whole), "{a:?} {b:?}");
            assert_eq!(child(a, b), whole.to_string_lossy(), "{a:?} {b:?}");
            assert_eq!(
                within(a.as_bytes(), b.as_bytes()),
                Path::new(a).starts_with(b),
                "{a:?} {b:?}"
            );
        }
    }
}

fn some(s: &str) -> Option<Vec<u8>> {
    Some(s.as_bytes().to_vec())
}

fn existing(s: &str) -> Target {
    Target::Existing(s.as_bytes().to_vec())
}

fn missing(s: &str, n: usize) -> Target {
    Target::Missing(s.as_bytes().to_vec(), n)
}

fn resolved(s: &str) -> Seen {
    Seen::Resolved(s.as_bytes().to_vec())
}

#[test]
fn the_file_system_is_asked_upwards() {
    let asked = |p: &str| -> Vec<String> {
        ancestors(p.as_bytes()).into_iter().map(|a| String::from_utf8(a).unwrap()).collect()
    };
    assert_eq!(asked("/jarvis/l/n/f"), ["/jarvis/l/n/f", "/jarvis/l/n", "/jarvis/l", "/jarvis", "/"]);
    assert_eq!(asked("/jarvis/l/."), ["/jarvis/l", "/jarvis", "/"]);
    assert_eq!(asked("/jarvis/l/"), ["/jarvis/l", "/jarvis", "/"]);
    assert_eq!(asked("a/b"), ["a/b", "a", ""]);
    assert_eq!(asked("./a"), ["./a", ".", ""]);
    assert_eq!(asked(""), [""]);
}

fn held(s: &str) -> Seen {
    Seen::Link(s.as_bytes().to_vec())
}

fn dangling(dir: &str, n: usize, lead: Option<&str>) -> Target {
    Target::Dangling(dir.as_bytes().to_vec(), n, lead.map(|l| l.as_bytes().to_vec()))
}

#[test]
fn the_nearest_answer_decides() {
    let one = |path: &str, seen: Vec<Seen>| target_of(path.as_bytes(), &vec![seen]);
    assert_eq!(one("/a", vec![resolved("/a"), resolved("/")]), existing("/a"));
    assert_eq!(
        one("/l/n/f", vec![Seen::Absent, Seen::Absent, resolved("/etc"), resolved("/")]),
        missing("/etc", 2)
    );
    assert_eq!(one("/a/b", vec![Seen::Absent, Seen::Unresolved]), Target::Unresolved);
    assert_eq!(one("/a/b", vec![Seen::Absent]), Target::Unresolved);
    assert_eq!(one("/a", vec![]), Target::Unresolved);
    assert_eq!(target_of(b"/a", &vec![]), Target::Unresolved);
}

#[test]
fn links_that_lead_to_nothing_are_followed() {
    // /j/d/l holds "../new/f"; nothing stands at /j/new.
    let path = b"/j/d/l/x";
    let first = vec![Seen::Absent, held("../new/f"), resolved("/j/d"), resolved("/j"), resolved("/")];
    let next = next_path(path, &first).unwrap();
    assert_eq!(next, b"/j/d/../new/f/x");
    let asked: Vec<String> =
        ancestors(&next).into_iter().map(|a| String::from_utf8(a).unwrap()).collect();
    assert_eq!(asked[..5], ["/j/d/../new/f/x", "/j/d/../new/f", "/j/d/../new", "/j/d/..", "/j/d"]);
    let second = vec![Seen::Absent, Seen::Absent, Seen::Absent, resolved("/j"), resolved("/j/d")];
    assert_eq!(next_path(&next, &second), None);
    let rounds = vec![first, second];
    assert_eq!(lead_of(path, &rounds), Lead::Somewhere(b"/j/new/f/x".to_vec()));
    assert_eq!(target_of(path, &rounds), dangling("/j/d", 2, Some("/j/new/f/x")));
    // An absolute path, and a way back up from what is missing.
    let rounds = vec![
        vec![held("/o/m/../../p"), resolved("/j"), resolved("/")],
        vec![Seen::Absent, Seen::Absent, Seen::Absent, Seen::Absent, resolved("/o"), resolved("/")],
    ];
    assert_eq!(next_path(b"/j/l", &rounds[0]).unwrap(), b"/o/m/../../p");
    assert_eq!(lead_of(b"/j/l", &rounds), Lead::Somewhere(b"/p".to_vec()));
    // A link to itself.
    let loops: Vec<Vec<Seen>> =
        (0..3).map(|_| vec![held("l"), resolved("/j"), resolved("/")]).collect();
    assert_eq!(next_path(b"/j/l", &loops[0]).unwrap(), b"/j/l");
    assert_eq!(lead_of(b"/j/l", &loops), Lead::Nowhere);
    assert_eq!(target_of(b"/j/l", &loops), dangling("/j", 1, None));
    // A link behind which something cannot be resolved.
    let stuck = vec![
        vec![held("o"), resolved("/j"), resolved("/")],
        vec![Seen::Unresolved, resolved("/j"), resolved("/")],
    ];
    assert_eq!(lead_of(b"/j/l", &stuck), Lead::Unknown);
    assert_eq!(target_of(b"/j/l", &stuck), Target::Unresolved);
}

#[test]
fn confined_paths() {
    let root = b"/jarvis";
    let here = existing("/jarvis");
    assert_eq!(confine_target(root, "a/b"), Ok(b"/jarvis/a/b".to_vec()));
    assert_eq!(confine_target(root, "/etc"), Ok(b"/etc".to_vec()));
    assert_eq!(confine_target(root, "a/../b"), Err(ConfineError::Traversal));
    assert_eq!(
        confine(root, "a", &here, &existing("/jarvis/a")),
        Ok(b"/jarvis/a".to_vec())
    );
    assert_eq!(
        confine(root, "new.yml", &here, &missing("/jarvis", 1)),
        Ok(b"/jarvis/new.yml".to_vec())
    );
    assert_eq!(
        confine(root, "d/e/new.yml", &here, &missing("/jarvis", 3)),
        Ok(b"/jarvis/d/e/new.yml".to_vec())
    );
    // A link inside the tree is followed, and what is missing is placed behind it.
    assert_eq!(
        confine(root, "l/n//./f/", &here, &missing("/jarvis/models", 2)),
        Ok(b"/jarvis/models/n/f".to_vec())
    );
    // A root that is itself missing, behind a link.
    assert_eq!(
        confine(b"/link/jarvis", "d/f", &missing("/data", 1), &missing("/data", 3)),
        Ok(b"/data/jarvis/d/f".to_vec())
    );
    // A link that leads to nothing inside the tree, or nowhere at all, passes as the link it is.
    assert_eq!(
        confine(root, "l", &here, &dangling("/jarvis", 1, Some("/jarvis/models/new"))),
        Ok(b"/jarvis/l".to_vec())
    );
    assert_eq!(
        confine(root, "d/l", &here, &dangling("/jarvis/d", 1, None)),
        Ok(b"/jarvis/d/l".to_vec())
    );
    // A root that is such a link.
    let linked = dangling("/home", 1, Some("/data/j"));
    assert_eq!(
        confine(b"/home/j", "x", &linked, &dangling("/home", 2, Some("/data/j/x"))),
        Ok(b"/home/j/x".to_vec())
    );
    // A root that could not be resolved stands as it is.
    assert_eq!(
        confine(root, "a", &Target::Unresolved, &existing("/jarvis/a")),
        Ok(b"/jarvis/a".to_vec())
    );
}

#[test]
fn refused_paths() {
    let root = b"/jarvis";
    let here = existing("/jarvis");
    assert_eq!(
        confine(root, "../x", &here, &existing("/jarvis/x")),
        Err(ConfineError::Traversal)
    );
    assert_eq!(confine(root, "a", &here, &Target::Unresolved), Err(ConfineError::Unresolved));
    assert_eq!(confine(root, "/", &here, &missing("/", 1)), Err(ConfineError::NoParent));
    assert_eq!(confine(b"", ".", &here, &missing("/jarvis", 1)), Err(ConfineError::NoFileName));
    assert_eq!(confine(root, "a", &here, &missing("/jarvis", 0)), Err(ConfineError::NoFileName));
    assert_eq!(confine(root, "a", &here, &missing("/jarvis", 9)), Err(ConfineError::NoFileName));
    // A link that leads out of the tree.
    assert_eq!(
        confine(root, "link", &here, &existing("/etc/passwd")),
        Err(ConfineError::Escapes(b"/etc/passwd".to_vec(), b"/jarvis".to_vec()))
    );
    // A directory beside the root that shares its beginning.
    assert_eq!(
        confine(root, "/jarvis2/x", &here, &missing("/jarvis2", 1)),
        Err(ConfineError::Escapes(b"/jarvis2/x".to_vec(), b"/jarvis".to_vec()))
    );
    // A new file behind a linked directory, and one in a new directory there.
    assert_eq!(
        confine(root, "link/x", &here, &missing("/etc", 1)),
        Err(ConfineError::Escapes(b"/etc/x".to_vec(), b"/jarvis".to_vec()))
    );
    assert_eq!(
        confine(root, "l/n/f", &here, &missing("/etc", 2)),
        Err(ConfineError::Escapes(b"/etc/n/f".to_vec(), b"/jarvis".to_vec()))
    );
    // A link that leads to nothing outside the tree, and one on the way.
    assert_eq!(
        confine(root, "l", &here, &dangling("/jarvis", 1, Some("/etc/new"))),
        Err(ConfineError::Escapes(b"/etc/new".to_vec(), b"/jarvis".to_vec()))
    );
    assert_eq!(
        confine(root, "l/n/f", &here, &dangling("/jarvis", 3, Some("/etc/n/f"))),
        Err(ConfineError::Escapes(b"/etc/n/f".to_vec(), b"/jarvis".to_vec()))
    );
}

#[test]
fn refusals_say_why() {
    assert_eq!(refusal(&ConfineError::Traversal, "../x", ""), "path traversal rejected: ../x");
    assert_eq!(refusal(&ConfineError::Unresolved, "x", "denied"), "denied");
    assert_eq!(refusal(&ConfineError::NoParent, "/", ""), "no parent for /");
    assert_eq!(refusal(&ConfineError::NoFileName, "..", ""), "no filename");
    assert_eq!(
        refusal(&ConfineError::Escapes(b"/etc".to_vec(), vec![b'/', 0xff]), "x", ""),
        "path /etc escapes /\u{fffd}"
    );
    assert_eq!(escape_message("/a", "/b"), "path /a escapes /b");
    let found = Lookup { root: existing("/jarvis"), target: existing("/jarvis/a") };
    assert_eq!(locate("/jarvis", "a", &found, ""), Ok(b"/jarvis/a".to_vec()));
    assert_eq!(
        locate("/jarvis", "a/..", &found, ""),
        Err("path traversal rejected: a/..".to_string())
    );
}

#[test]
fn written_files_are_found_again() {
    let before = Lookup { root: existing("/jarvis"), target: missing("/jarvis/models", 2) };
    let payload = FilePayload { path: "l/n/f".to_string(), content: "text".to_string() };
    let path = locate("/jarvis", "l/n/f", &before, "").unwrap();
    let written = write_file(path, payload);
    assert_eq!(written.path, b"/jarvis/models/n/f");
    assert_eq!(written.dir, some("/jarvis/models/n"));
    let after = Lookup { root: existing("/jarvis"), target: Target::Existing(written.path.clone()) };
    let found = locate("/jarvis", "l/n/f", &after, "").unwrap();
    assert_eq!(found, written.path);
    assert_eq!(read_file(&found, written.content).content, "text");
    // Through a link that led to nothing, the file comes to stand where the link leads.
    let before = Lookup {
        root: existing("/jarvis"),
        target: dangling("/jarvis", 1, Some("/jarvis/models/new")),
    };
    assert_eq!(locate("/jarvis", "l", &before, ""), Ok(b"/jarvis/l".to_vec()));
    let after = Lookup { root: existing("/jarvis"), target: existing("/jarvis/models/new") };
    assert_eq!(locate("/jarvis", "l", &after, ""), Ok(b"/jarvis/models/new".to_vec()));
}

#[test]
fn files_are_read_and_written() {
    let p = read_file(b"/jarvis/a", "text".to_string());
    assert_eq!(p, FilePayload { path: "/jarvis/a".to_string(), content: "text".to_string() });
    let w = write_file(b"/jarvis/d/a".to_vec(), p);
    assert_eq!(w.dir, some("/jarvis/d"));
    assert_eq!(w.path, b"/jarvis/d/a");
    assert_eq!(w.content, "text");
    assert_eq!(reading_failed(b"/jarvis/a"), "reading /jarvis/a");
    assert_eq!(writing_failed(b"/jarvis/a"), "writing /jarvis/a");
}

fn config() -> Config {
    Config {
        secret: "s".to_string(),
        jarvis: "/jarvis".to_string(),
        accel: AccelKind::Cpu,
        port: 1,
        project: "modeldeck-llm".to_string(),
        version: "0".to_string(),
    }
}

#[test]
fn only_models_can_be_deleted() {
    let cfg = config();
    let in_models = Lookup {
        root: existing("/jarvis/models"),
        target: existing("/jarvis/models/a.gguf"),
    };
    let out_of_cache = Lookup {
        root: existing("/jarvis/hf-cache"),
        target: existing("/jarvis/models/a.gguf"),
    };
    assert_eq!(
        delete_model(&cfg, "/jarvis/models/a.gguf", &in_models, &out_of_cache),
        Ok(b"/jarvis/models/a.gguf".to_vec())
    );
    let path = "/jarvis/hf-cache/hub/models--a--b";
    let out_of_models = Lookup { root: existing("/jarvis/models"), target: existing(path) };
    let in_cache = Lookup { root: existing("/jarvis/hf-cache"), target: existing(path) };
    assert_eq!(delete_model(&cfg, path, &out_of_models, &in_cache), Ok(path.as_bytes().to_vec()));
    let elsewhere = "/jarvis/docker-compose.yml";
    let a = Lookup { root: existing("/jarvis/models"), target: existing(elsewhere) };
    let b = Lookup { root: existing("/jarvis/hf-cache"), target: existing(elsewhere) };
    assert_eq!(
        delete_model(&cfg, elsewhere, &a, &b),
        Err("model path must be under models/ or hf-cache/".to_string())
    );
}

#[test]
fn configuration_defaults() {
    let none = AgentEnv { jarvis: None, secret: None, accel: None, port: None, project: None };
    let c = Config::from_env(&none, "1.2.3");
    assert_eq!(c.jarvis, "/home/shadowbroker/jarvis");
    assert_eq!(c.secret, "");
    assert_eq!(c.accel, AccelKind::Cpu);
    assert_eq!(c.port, DEFAULT_PORT);
    assert_eq!(c.port, 9777);
    assert_eq!(c.project, "modeldeck-llm");
    assert_eq!(c.version, "1.2.3");
    assert_eq!(c.models_dir(), "/home/shadowbroker/jarvis/models");
    assert_eq!(c.services_dir(), "/home/shadowbroker/jarvis/services");
    assert_eq!(c.state_dir(), "/home/shadowbroker/jarvis/.modeldeck");
    assert_eq!(c.cache_dir(), "/home/shadowbroker/jarvis/hf-cache");
}

#[test]
fn configuration_from_the_environment() {
    let env = AgentEnv {
        jarvis: Some("/opt/jarvis/".to_string()),
        secret: Some("s3".to_string()),
        accel: Some(" Nvidia ".to_string()),
        port: Some("8080".to_string()),
        project: Some("p".to_string()),
    };
    let c = Config::from_env(&env, "1");
    assert_eq!(c.models_dir(), "/opt/jarvis/models");
    assert_eq!(c.secret, "s3");
    assert_eq!(c.accel, AccelKind::Cuda);
    assert_eq!(c.port, 8080);
    assert_eq!(c.project, "p");
    let bad = AgentEnv { port: Some("99999".to_string()), ..env };
    assert_eq!(Config::from_env(&bad, "1").port, 9777);
}

#[test]
fn bearer_gate() {
    assert!(authorized("s", Some("Bearer s")));
    assert!(!authorized("s", Some("Bearer t")));
    assert!(!authorized("s", Some("bearer s")));
    assert!(!authorized("s", Some("s")));
    assert!(!authorized("s", None));
    assert!(!authorized("", Some("Bearer ")));
    assert!(!authorized("", None));
}
