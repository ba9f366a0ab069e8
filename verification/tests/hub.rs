use modeldeck::client;
use modeldeck::client::{
    check_reply, check_status, decode_failed, secret, send_failed, url, urlencode, Body, Method, Request,
};
use modeldeck::console::{
    activation_entry, add_tied_file, badge_class, card_class, check_profile, compose_target,
    download_form, edit_tied_file, filter_class, filter_models, is_active, level_class, memory_text,
    name_matches, new_profile, new_target, preselect, profile_line, profiles_of, remove_target, remove_tied_file,
    set_dockerfile_name, set_engine, set_host_port, set_model_dir, set_model_ref, set_notes, shown_notes,
    state_class, TiedEdit,
};
use modeldeck::hub;
use modeldeck::hub::{
    activate_profile, find_target, if_named, push_active, push_failed, push_gpu, state_url,
    target_url, Call, News, Swapping,
};
use modeldeck::ingress::{
    ingress_prefix, ingress_server_url, plan_rewrite, rewrite_ingress_assets, rewrite_text,
    strip_ingress_prefix, strip_prefix, Rewrite,
};
use modeldeck::kinds::{EngineKind, TiedFileRole};
use modeldeck::records::{
    ActivateResult, GpuStats, ModelFile, ServiceProfile, TiedFile, Timestamp, VmTarget,
};
use modeldeck::store::{
    created_key, credentials, endpoint, from_read, get_active, get_profile, key_of, list_profiles,
    list_targets, save_profile, saved_id, statement, to_write, upsert_target, Endpoint, ProfileRead, Statement,
    VmTargetRead,
};

fn s(t: &str) -> String {
    t.to_string()
}

fn strings(v: &[&str]) -> Vec<String> {
    v.iter().map(|t| t.to_string()).collect()
}

// --- client -------------------------------------------------------------------

#[test]
fn addresses_have_one_slash() {
    for base in ["http://h:9777", "http://h:9777/", "http://h:9777//"] {
        for path in ["info", "/info", "//info"] {
            assert_eq!(url(base, path), "http://h:9777/info");
        }
    }
}

#[test]
fn query_values_are_encoded() {
    assert_eq!(urlencode("a b&c=d/é~"), "a%20b%26c%3Dd/%C3%A9~");
    assert_eq!(urlencode("AZaz09-_.~/"), "AZaz09-_.~/");
    assert_eq!(urlencode("%+?#\n"), "%25%2B%3F%23%0A");
    assert_eq!(urlencode(""), "");
}

fn percent_decoded(text: &str) -> Vec<u8> {
    let b = text.as_bytes();
    let mut out: Vec<u8> = Vec::new();
    let mut i = 0;
    while i < b.len() {
        if b[i] == b'%' {
            out.push(u8::from_str_radix(&text[i + 1..i + 3], 16).unwrap());
            i += 3;
        } else {
            out.push(b[i]);
            i += 1;
        }
    }
    out
}

#[test]
fn encoding_is_undone_by_decoding() {
    let all: String = (1..0x250u32).filter_map(char::from_u32).collect();
    for t in [all.as_str(), "🦙/€ %41", ""] {
        let e = urlencode(t);
        assert_eq!(percent_decoded(&e), t.as_bytes());
        assert!(e.chars().all(|c| c.is_ascii_alphanumeric() || "-_.~/%".contains(c)));
    }
}

#[test]
fn secrets() {
    assert_eq!(secret(Some(s("a")), Some(s("b"))), "a");
    assert_eq!(secret(None, Some(s("b"))), "b");
    assert_eq!(secret(None, None), "");
}

#[test]
fn requests() {
    assert_eq!(
        client::info(),
        Request { method: Method::Get, path: s("info"), body: Body::Nothing }
    );
    assert_eq!(client::gpu().path, "gpu");
    assert_eq!(client::containers().path, "containers");
    assert_eq!(client::compose_projects().path, "compose");
    assert_eq!(client::models().path, "models");
    assert_eq!(client::read_file("a b").path, "file?path=a%20b");
    assert_eq!(client::logs("c&d", 50).path, "logs?container=c%26d&tail=50");
    assert_eq!(
        client::write_file(),
        Request { method: Method::Put, path: s("file"), body: Body::Record }
    );
    assert_eq!(
        client::restart("c"),
        Request {
            method: Method::Post,
            path: s("compose/restart"),
            body: Body::Members(vec![(s("container"), Some(s("c")))]),
        }
    );
    assert_eq!(
        client::compose_up("f", None).body,
        Body::Members(vec![(s("file"), Some(s("f"))), (s("project"), None)])
    );
    assert_eq!(
        client::compose_up("f", Some("p")).body,
        Body::Members(vec![(s("file"), Some(s("f"))), (s("project"), Some(s("p")))])
    );
    assert_eq!(client::compose_down("p").path, "compose/down");
    assert_eq!(
        client::delete_model("m").body,
        Body::Members(vec![(s("path"), Some(s("m")))])
    );
    assert_eq!(client::activate().path, "activate");
    assert_eq!(client::start_download().path, "models/download");
}

#[test]
fn replies() {
    assert_eq!(check_reply(Method::Get, "info", 200, "200 OK", ""), Ok(()));
    assert_eq!(check_reply(Method::Post, "activate", 299, "299", "x"), Ok(()));
    assert_eq!(
        check_reply(Method::Get, "info", 500, "500 Internal Server Error", "body"),
        Err(s("info: HTTP 500 Internal Server Error"))
    );
    assert_eq!(
        check_reply(Method::Put, "file", 401, "401 Unauthorized", "unauthorized"),
        Err(s("file: HTTP 401 Unauthorized: unauthorized"))
    );
    assert_eq!(check_reply(Method::Get, "x", 199, "199", ""), Err(s("x: HTTP 199")));
    assert_eq!(check_status(Method::Get, "info", 204, ""), Ok(()));
    assert_eq!(
        check_status(Method::Get, "info", 503, "b"),
        Err(s("info: HTTP 503 Service Unavailable"))
    );
    assert_eq!(
        check_status(Method::Post, "x", 599, "b"),
        Err(s("x: HTTP 599 <unknown status code>: b"))
    );
    assert_eq!(send_failed("gpu", "timed out"), "gpu: timed out");
    assert_eq!(decode_failed(Method::Get, "gpu", "eof", "{"), "gpu decode: eof");
    assert_eq!(decode_failed(Method::Post, "gpu", "eof", "{"), "gpu decode: eof ({)");
}

// --- ingress ------------------------------------------------------------------

#[test]
fn the_prefix_is_taken_off_requests() {
    let h = Some("/api/hassio_ingress/tok/");
    assert_eq!(ingress_prefix(h), Some(s("/api/hassio_ingress/tok")));
    assert_eq!(ingress_prefix(Some("///")), None);
    assert_eq!(ingress_prefix(None), None);
    assert_eq!(strip_ingress_prefix(h, "/api/hassio_ingress/tok/x", None), Some(s("/x")));
    assert_eq!(
        strip_ingress_prefix(h, "/api/hassio_ingress/tok", Some("a=b")),
        Some(s("/?a=b"))
    );
    assert_eq!(strip_ingress_prefix(h, "/other", Some("a=b")), None);
    assert_eq!(strip_ingress_prefix(None, "/api/hassio_ingress/tok/x", None), None);
    // What is left over is no address: the request stays as it is.
    assert_eq!(strip_prefix("/p", "/p/a b", None), Some(s("/a b")));
    assert_eq!(strip_ingress_prefix(Some("/p"), "/p/a b", None), None);
    assert_eq!(strip_ingress_prefix(Some("/p"), "/p/a%20b", Some("q=1")), Some(s("/a%20b?q=1")));
}

#[test]
fn what_is_rewritten() {
    let h = Some("/p/");
    assert_eq!(plan_rewrite(h, false, "/a.js", ""), Some((Rewrite::Code, s("/p"))));
    assert_eq!(plan_rewrite(h, false, "/a.css", "text/html"), Some((Rewrite::Code, s("/p"))));
    assert_eq!(
        plan_rewrite(h, false, "/", "text/html; charset=utf-8"),
        Some((Rewrite::Html, s("/p")))
    );
    assert_eq!(plan_rewrite(h, true, "/a.js", ""), None);
    assert_eq!(plan_rewrite(h, false, "/a.png", "image/png"), None);
    assert_eq!(plan_rewrite(None, false, "/a.js", ""), None);
}

#[test]
fn pages_are_rewritten() {
    let page = "<head><link href=\"/assets/a.css\"><script src=\"/./assets/b.js\"></head>\
        <a href=\"/api/x\"><head>";
    assert_eq!(
        rewrite_text(Rewrite::Html, page, "/p"),
        "<head><base href=\"/p/\"><link href=\"/p/assets/a.css\"><script src=\"/p/assets/b.js\"></head>\
        <a href=\"/p/api/x\"><head>"
    );
    assert_eq!(
        rewrite_ingress_assets(Rewrite::Html, b"a\xff=\"/assets/", "/p"),
        "a\u{fffd}=\"/p/assets/"
    );
}

#[test]
fn code_is_rewritten() {
    let code = "import '/assets/a.js';url(/assets/b.png);fetch(\"/assets/c\");x=`/./assets/d`;/assets/e";
    assert_eq!(
        rewrite_text(Rewrite::Code, code, "/p"),
        "import '/p/assets/a.js';url(/p/assets/b.png);fetch(\"/p/assets/c\");x=`/p/assets/d`;/assets/e"
    );
    assert_eq!(rewrite_text(Rewrite::Code, "no links", "/p"), "no links");
}

#[test]
fn no_asset_link_is_left_outside_the_prefix() {
    let prefix = "/api/hassio_ingress/tok";
    let page = "<head>a=\"/assets/x\"b=\"/./assets/y\"==\"/assets/=\"/assets/z<head>";
    let html = rewrite_text(Rewrite::Html, page, prefix);
    assert!(!html.contains("=\"/assets/"));
    assert_eq!(html.matches("=\"/api/hassio_ingress/tok/assets/").count(), 4);
    let code = rewrite_text(Rewrite::Code, "\"/assets/'/assets/(/assets/\"/assets/", prefix);
    for mark in ["\"", "'", "("] {
        assert!(!code.contains(&format!("{mark}/assets/")));
    }
}

#[test]
fn the_browser_finds_its_server() {
    assert_eq!(
        ingress_server_url("http://ha:8123", "/api/hassio_ingress/tok/page"),
        Some(s("http://ha:8123/api/hassio_ingress/tok"))
    );
    assert_eq!(
        ingress_server_url("o", "//api//hassio_ingress/tok"),
        Some(s("o/api/hassio_ingress/tok"))
    );
    assert_eq!(ingress_server_url("o", "/api/hassio_ingress/"), None);
    assert_eq!(ingress_server_url("o", "/x/hassio_ingress/tok"), None);
    assert_eq!(ingress_server_url("o", "/"), None);
}

// --- store --------------------------------------------------------------------

fn full_profile() -> ServiceProfile {
    ServiceProfile {
        id: s("k1"),
        name: s("n"),
        vm: s("amd"),
        engine: EngineKind::TabbyApi,
        model_ref: s("/models/a.gguf"),
        model_dir_name: s("a.gguf"),
        service_name: s("svc"),
        container_name: s("c"),
        host_port: Some(65535),
        compose_fragment: s("x: {}"),
        dockerfile_name: Some(s("Dockerfile.x")),
        dockerfile: None,
        tied_files: vec![TiedFile {
            role: TiedFileRole::Grammar,
            filename: s("g"),
            content: s("c"),
        }],
        notes: Some(s("")),
        known_good: true,
        created_at: Some(Timestamp { secs: 1, nanos: 2 }),
        updated_at: None,
    }
}

fn as_read(p: &ServiceProfile, now: Timestamp, rid: &str) -> ProfileRead {
    let w = to_write(p, now);
    ProfileRead {
        rid: s(rid),
        name: w.name,
        vm: w.vm,
        engine: w.engine,
        model_ref: w.model_ref,
        model_dir_name: w.model_dir_name,
        service_name: w.service_name,
        container_name: w.container_name,
        host_port: w.host_port,
        compose_fragment: w.compose_fragment,
        dockerfile_name: w.dockerfile_name,
        dockerfile: w.dockerfile,
        tied_files: w.tied_files,
        notes: w.notes,
        known_good: w.known_good,
        created_at: Some(w.created_at),
        updated_at: Some(w.updated_at),
    }
}

#[test]
fn stored_profiles_read_back() {
    let now = Timestamp { secs: 9, nanos: 0 };
    let p = full_profile();
    let w = to_write(&p, now);
    assert_eq!(w.engine, "tabbyAPI");
    assert_eq!(w.host_port, Some(65535));
    assert_eq!(w.tied_files[0].role, "grammar");
    assert_eq!(w.created_at, Timestamp { secs: 1, nanos: 2 });
    assert_eq!(w.updated_at, now);
    let back = from_read(as_read(&p, now, "profile:⟨k1⟩"));
    assert_eq!(back, ServiceProfile { updated_at: Some(now), ..p.clone() });
    let fresh = ServiceProfile { created_at: None, ..p };
    assert_eq!(to_write(&fresh, now).created_at, now);
    let rows = vec![as_read(&fresh, now, "profile:a"), as_read(&fresh, now, "profile:b")];
    let ids: Vec<String> = list_profiles(rows).into_iter().map(|p| p.id).collect();
    assert_eq!(ids, strings(&["a", "b"]));
    assert_eq!(get_profile(Vec::new()), None);
    assert_eq!(get_profile(vec![as_read(&fresh, now, "profile:a")]).unwrap().id, "a");
}

#[test]
fn stored_ports_keep_sixteen_bits() {
    let now = Timestamp { secs: 0, nanos: 0 };
    for n in [0i64, 8080, 65536, 65537, -1, i64::MIN, i64::MAX] {
        let mut r = as_read(&full_profile(), now, "profile:a");
        r.host_port = Some(n);
        assert_eq!(from_read(r).host_port, Some(n as u16));
    }
}

#[test]
fn record_keys() {
    assert_eq!(key_of("profile:abc", "profile:"), "abc");
    assert_eq!(key_of("profile:⟨a-b⟩", "profile:"), "a-b");
    assert_eq!(key_of("abc", "profile:"), "abc");
    assert_eq!(key_of("", "profile:"), "");
    assert_eq!(created_key(strings(&["profile:x", "profile:y"])), "x");
    assert_eq!(created_key(Vec::new()), "");
    let mut p = ServiceProfile { id: s(" "), ..ServiceProfile::default() };
    assert_eq!(saved_id(&p, strings(&["profile:⟨x-1⟩", "profile:y"])), "x-1");
    assert_eq!(saved_id(&p, Vec::new()), "");
    p.id = s("k");
    assert_eq!(saved_id(&p, strings(&["profile:x"])), "k");
    assert_eq!(get_active(strings(&["p", "q"])), Some(s("p")));
    assert_eq!(get_active(Vec::new()), None);
}

#[test]
fn stored_targets_read_back() {
    let rows = vec![VmTargetRead {
        rid: s("vm_target:amd"),
        name: s("AMD"),
        accel: Some(s("rocm")),
        agent_url: s("http://h"),
        jarvis_path: None,
        gpu_arch: None,
    }];
    let list = list_targets(rows);
    assert_eq!(
        list,
        vec![VmTarget {
            id: s("amd"),
            name: s("AMD"),
            accel: Some(s("rocm")),
            agent_url: s("http://h"),
            jarvis_path: s(""),
            gpu_arch: None,
            online: false,
        }]
    );
    assert_eq!(
        upsert_target(&list[0]),
        vec![
            (s("id"), Some(s("amd"))),
            (s("name"), Some(s("AMD"))),
            (s("accel"), Some(s("rocm"))),
            (s("url"), Some(s("http://h"))),
            (s("jp"), Some(s(""))),
            (s("arch"), None),
        ]
    );
}

#[test]
fn statements() {
    assert_eq!(save_profile(&full_profile()), Statement::UpdateProfile);
    let new = ServiceProfile { id: s(" "), ..full_profile() };
    assert_eq!(save_profile(&new), Statement::CreateProfile);
    assert_eq!(
        statement(Statement::ListProfiles),
        "SELECT <string>id AS rid, name, vm, engine, model_ref, model_dir_name, service_name, \
        container_name, host_port, compose_fragment, dockerfile_name, dockerfile, tied_files, notes, \
        known_good, created_at, updated_at FROM profile ORDER BY name"
    );
    assert!(statement(Statement::GetProfile).ends_with(" FROM type::record('profile', $key)"));
    assert!(statement(Statement::Setup).starts_with("DEFINE TABLE IF NOT EXISTS vm_target SCHEMALESS; "));
    assert_eq!(statement(Statement::DeleteTarget), "DELETE type::record('vm_target', $id)");
}

#[test]
fn endpoints() {
    assert_eq!(endpoint(None), Err(s("SURREAL_URL not set")));
    assert_eq!(endpoint(Some("  ")), Err(s("SURREAL_URL is empty")));
    assert_eq!(endpoint(Some(" wss://h ")), Ok(Endpoint::Secure(s("h"))));
    assert_eq!(endpoint(Some("ws://h:1")), Ok(Endpoint::Plain(s("h:1"))));
    assert_eq!(endpoint(Some("h:1")), Ok(Endpoint::Plain(s("h:1"))));
    assert_eq!(credentials(Some(s("u")), Some(s(""))), Some((s("u"), s(""))));
    assert_eq!(credentials(Some(s("")), Some(s("p"))), None);
    assert_eq!(credentials(Some(s("u")), None), None);
    assert_eq!(credentials(None, Some(s("p"))), None);
}

// --- server -------------------------------------------------------------------

fn target(id: &str, agent: &str) -> VmTarget {
    VmTarget { id: s(id), agent_url: s(agent), ..VmTarget::default() }
}

#[test]
fn agents_are_found_by_vm() {
    let t = vec![target("amd", "http://a"), target("nvidia", ""), target("amd", "http://b")];
    assert_eq!(find_target(&t, "nvidia"), Some(1));
    assert_eq!(find_target(&t, "x"), None);
    assert_eq!(target_url(&t, "amd"), Ok(s("http://a")));
    assert_eq!(target_url(&t, "nvidia"), Err(s("no agent URL for VM 'nvidia'")));
    assert_eq!(target_url(&t, "x"), Err(s("no agent URL for VM 'x'")));
}

#[test]
fn models_get_their_vm() {
    let m = ModelFile { filename: s("a"), size_bytes: 3, ..ModelFile::default() };
    let list = hub::list_models(vec![m.clone()], "amd");
    assert_eq!(list, vec![ModelFile { vm: s("amd"), ..m }]);
}

#[test]
fn download_requests_carry_the_hubs_token() {
    let r = hub::start_download(s("r"), None, Some(s("d")), Some(s("tok")));
    assert_eq!(r.hf_token, Some(s("tok")));
    assert_eq!((r.repo.as_str(), r.dest.as_deref()), ("r", Some("d")));
    assert_eq!(hub::start_download(s("r"), None, None, Some(s(""))).hf_token, None);
    assert_eq!(if_named(None), None);
    assert_eq!(if_named(Some(s("t"))), Some(s("t")));
}

#[test]
fn a_swap_driven_by_the_hub() {
    let p = full_profile();
    let ok = ActivateResult { ok: true, ..ActivateResult::default() };
    let (stage, call) = activate_profile("k1", Swapping::Loading, News::Profile(Ok(Some(p.clone()))));
    assert_eq!(call, Call::ReadTargets);
    let (stage, call) =
        activate_profile("k1", stage, News::Targets(Ok(vec![target("amd", "http://a")])));
    assert_eq!(call, Call::Activate(s("http://a")));
    let (stage, call) = activate_profile("k1", stage, News::Activated(Ok(ok.clone())));
    assert_eq!(call, Call::SetActive(s("amd"), s("k1")));
    let (stage, call) = activate_profile("k1", stage, News::Done);
    assert_eq!(call, Call::PushActive(s("amd"), s("n")));
    let (stage, call) = activate_profile("k1", stage, News::Done);
    assert_eq!((stage, call), (Swapping::Ended, Call::Finish(Ok(ok))));
}

#[test]
fn a_swap_that_is_not_marked() {
    let p = full_profile();
    let (_, call) = activate_profile("k1", Swapping::Loading, News::Profile(Ok(None)));
    assert_eq!(call, Call::Finish(Err(s("profile k1 not found"))));
    let (_, call) = activate_profile("k1", Swapping::Loading, News::Profile(Err(s("db"))));
    assert_eq!(call, Call::Finish(Err(s("db"))));
    let (_, call) =
        activate_profile("k1", Swapping::Resolving(p.clone()), News::Targets(Ok(Vec::new())));
    assert_eq!(call, Call::Finish(Err(s("no agent URL for VM 'amd'"))));
    let (_, call) =
        activate_profile("k1", Swapping::Resolving(p.clone()), News::Targets(Err(s("db"))));
    assert_eq!(call, Call::Finish(Err(s("db"))));
    let failed = ActivateResult::default();
    let (_, call) =
        activate_profile("k1", Swapping::Activating(p.clone()), News::Activated(Ok(failed.clone())));
    assert_eq!(call, Call::Finish(Ok(failed)));
    let (_, call) = activate_profile("k1", Swapping::Activating(p), News::Activated(Err(s("x"))));
    assert_eq!(call, Call::Finish(Err(s("x"))));
}

#[test]
fn sensors() {
    let a = push_active("UbuntuAI AMD", "Qwen");
    assert_eq!(a.entity, "sensor.modeldeck_ubuntuai_amd_active");
    assert_eq!(a.state, "Qwen");
    assert_eq!(
        a.texts,
        vec![
            (s("friendly_name"), s("ModelDeck UbuntuAI AMD active model")),
            (s("icon"), s("mdi:robot")),
            (s("vm"), s("UbuntuAI AMD")),
        ]
    );
    assert!(a.numbers.is_empty());
    let gpus = vec![
        GpuStats { name: s("RX"), mem_used_mb: 1, mem_total_mb: 4, ..GpuStats::default() },
        GpuStats::default(),
    ];
    let g = push_gpu("amd", &gpus, "25").unwrap();
    assert_eq!(g.entity, "sensor.modeldeck_amd_vram");
    assert_eq!(g.state, "25");
    assert_eq!(g.texts[0], (s("friendly_name"), s("ModelDeck amd VRAM")));
    assert_eq!(g.texts[4], (s("gpu"), s("RX")));
    assert_eq!(g.numbers, vec![(s("mem_used_mb"), 1), (s("mem_total_mb"), 4)]);
    assert_eq!(push_gpu("amd", &Vec::new(), "0"), None);
    assert_eq!(
        state_url(&g.entity),
        "http://supervisor/core/api/states/sensor.modeldeck_amd_vram"
    );
    assert_eq!(push_failed("e", "x"), "HA push e failed: x");
    let odd = push_active("Ä--B c!", "").entity;
    assert_eq!(odd, "sensor.modeldeck_b_c_active");
}

// --- console ------------------------------------------------------------------

#[test]
fn the_first_vm_is_preselected() {
    let t = vec![target("amd", ""), target("nvidia", "")];
    assert_eq!(preselect("", &t), Some(s("amd")));
    assert_eq!(preselect("nvidia", &t), None);
    assert_eq!(preselect("", &Vec::new()), None);
}

#[test]
fn styles() {
    assert_eq!((filter_class(true), filter_class(false)), ("btn-nebula", "btn-cosmic"));
    assert_eq!(badge_class("good"), "badge badge-nebula");
    assert_eq!(badge_class("warn"), "badge badge-method");
    assert_eq!(badge_class("bad"), "badge");
    assert_eq!(badge_class("?"), "badge badge-method");
    assert_eq!(level_class("ERROR"), "text-warning-red font-semibold");
    assert_eq!(level_class("INFO"), "text-aurora-purple");
    assert_eq!((state_class("running"), state_class("exited")), ("text-alien-green", "text-stardust"));
    assert_eq!(card_class(false), "card-cosmic p-5");
    assert_eq!(card_class(true), "card-cosmic p-5 border-2 border-nebula-purple");
}

#[test]
fn models_are_filtered() {
    let list: Vec<ModelFile> = ["Qwen.gguf", "llama.gguf", "QWEN2"]
        .iter()
        .map(|n| ModelFile { filename: s(n), ..ModelFile::default() })
        .collect();
    let names = |v: Vec<ModelFile>| v.into_iter().map(|m| m.filename).collect::<Vec<_>>();
    assert_eq!(names(filter_models(list.clone(), "qWen")), strings(&["Qwen.gguf", "QWEN2"]));
    assert_eq!(names(filter_models(list.clone(), "")).len(), 3);
    assert!(filter_models(list, "mistral").is_empty());
    assert!(name_matches("qwen.gguf", "wen") && name_matches("x", "") && !name_matches("x", "y"));
}

#[test]
fn the_download_form() {
    assert_eq!(download_form(" a/b ", " *.gguf "), Some((s("a/b"), Some(s("*.gguf")))));
    assert_eq!(download_form("a/b", "  "), Some((s("a/b"), None)));
    assert_eq!(download_form("  ", "x"), None);
}

#[test]
fn profiles_are_shown() {
    let p = full_profile();
    let other = ServiceProfile { vm: s("nvidia"), ..p.clone() };
    assert_eq!(profiles_of(vec![p.clone(), other, p.clone()], "amd"), vec![p.clone(), p.clone()]);
    assert!(is_active(&p, &Some(s("k1"))));
    assert!(!is_active(&p, &Some(s("k2"))));
    assert!(!is_active(&p, &None));
    assert!(is_active(&ServiceProfile::default(), &None));
    assert_eq!(profile_line(&p), "tabbyAPI · /models/a.gguf:65535");
    let quiet = ServiceProfile { host_port: None, ..p.clone() };
    assert_eq!(profile_line(&quiet), "tabbyAPI · /models/a.gguf");
    assert_eq!(shown_notes(&p), None);
    assert_eq!(shown_notes(&ServiceProfile { notes: Some(s("x")), ..p.clone() }), Some(s("x")));
    assert_eq!(shown_notes(&ServiceProfile { notes: None, ..p }), None);
}

#[test]
fn activation_results_are_logged() {
    let r = ActivateResult { ok: true, message: s("m"), health_ok: false, log_tail: Vec::new() };
    assert_eq!(activation_entry(&r), ("INFO", s("Activate: m (health_ok=false)")));
    let r = ActivateResult { ok: false, health_ok: true, ..r };
    assert_eq!(activation_entry(&r), ("ERROR", s("Activate: m (health_ok=true)")));
}

#[test]
fn directory_follows_the_model() {
    let mut p = new_profile("amd");
    let mut named = false;
    for typed in ["a", "ab", "ab/", "ab/c", "ab/c.gguf"] {
        set_model_ref(&mut p, &mut named, s(typed));
    }
    assert_eq!((p.model_ref.as_str(), p.model_dir_name.as_str()), ("ab/c.gguf", "c.gguf"));
    set_model_ref(&mut p, &mut named, s("a"));
    set_model_ref(&mut p, &mut named, s("ab"));
    assert_eq!(p.model_dir_name, "ab");
    // A directory set by hand stays, even one that is named like the model.
    set_model_dir(&mut p, &mut named, s("mine"));
    set_model_ref(&mut p, &mut named, s("mine"));
    set_model_ref(&mut p, &mut named, s("abc"));
    assert_eq!((p.model_ref.as_str(), p.model_dir_name.as_str()), ("abc", "mine"));
    // Once it is cleared, it follows again.
    set_model_dir(&mut p, &mut named, s(""));
    set_model_ref(&mut p, &mut named, s("x/y"));
    assert_eq!(p.model_dir_name, "y");
    // A stored directory stays.
    let mut stored = ServiceProfile {
        id: s("1"),
        model_ref: s("org/a"),
        model_dir_name: s("a"),
        ..ServiceProfile::default()
    };
    let mut named = false;
    set_model_ref(&mut stored, &mut named, s("org/b"));
    assert_eq!((stored.model_ref.as_str(), stored.model_dir_name.as_str()), ("org/b", "a"));
}

#[test]
fn drafts_are_edited() {
    let mut p = new_profile("amd");
    assert_eq!(p, ServiceProfile { vm: s("amd"), ..ServiceProfile::default() });
    assert_eq!(check_profile(&p), Some("Name is required."));
    p.name = s("n");
    assert_eq!(check_profile(&p), Some("Service name is required."));
    p.service_name = s("svc");
    assert_eq!(check_profile(&p), None);
    let mut named = false;
    set_model_ref(&mut p, &mut named, s("/models/a.gguf"));
    assert_eq!((p.model_ref.as_str(), p.model_dir_name.as_str()), ("/models/a.gguf", "a.gguf"));
    set_model_ref(&mut p, &mut named, s("org/b"));
    assert_eq!((p.model_ref.as_str(), p.model_dir_name.as_str()), ("org/b", "b"));
    set_host_port(&mut p, " 8080 ");
    assert_eq!(p.host_port, Some(8080));
    set_host_port(&mut p, "65536");
    assert_eq!(p.host_port, None);
    set_dockerfile_name(&mut p, s("Dockerfile.x"));
    assert_eq!(p.dockerfile_name, Some(s("Dockerfile.x")));
    set_dockerfile_name(&mut p, s(""));
    assert_eq!(p.dockerfile_name, None);
    set_notes(&mut p, s(" "));
    assert_eq!(p.notes, Some(s(" ")));
    set_notes(&mut p, s(""));
    assert_eq!(p.notes, None);
    set_engine(&mut p, "vllm");
    assert_eq!(p.engine, EngineKind::Vllm);
}

#[test]
fn tied_files_are_edited() {
    let mut f: Vec<TiedFile> = Vec::new();
    add_tied_file(&mut f);
    add_tied_file(&mut f);
    assert_eq!(f[1].role, TiedFileRole::ChatTemplate);
    edit_tied_file(&mut f, 1, TiedEdit::Role(s("config")));
    edit_tied_file(&mut f, 1, TiedEdit::Filename(s("x.json")));
    edit_tied_file(&mut f, 1, TiedEdit::Content(s("{}")));
    edit_tied_file(&mut f, 9, TiedEdit::Content(s("lost")));
    assert_eq!(f[0].filename, "");
    assert_eq!(
        f[1],
        TiedFile { role: TiedFileRole::Config, filename: s("x.json"), content: s("{}") }
    );
    remove_tied_file(&mut f, 5);
    assert_eq!(f.len(), 2);
    remove_tied_file(&mut f, 0);
    assert_eq!(f[0].filename, "x.json");
}

#[test]
fn the_remaining_pages() {
    assert_eq!(compose_target("", "typed.yml"), "typed.yml");
    assert_eq!(compose_target("/jarvis/loaded.yml", "typed.yml"), "/jarvis/loaded.yml");
    let g = GpuStats { mem_used_mb: 3, mem_total_mb: 24576, ..GpuStats::default() };
    assert_eq!(memory_text(&g), "3 / 24576 MB");
    let t = new_target();
    assert_eq!(t.jarvis_path, "/home/shadowbroker/jarvis");
    let mut rows = vec![target("a", ""), target("b", "")];
    assert_eq!(remove_target(&mut rows, 0), "a");
    assert_eq!(rows, vec![target("b", "")]);
}
