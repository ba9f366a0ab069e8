use modeldeck::kinds::{
    engine_from_label, engine_icon, format_title, role_from, role_str, AccelKind, EngineKind,
    ModelFormat, TiedFileRole, ALL_ENGINES,
};
use modeldeck::names::{
    format_from_lowercase, infer_format, is_safe_segment, parse_quant, quant_from_uppercase, slugify,
};

#[test]
fn quant_parsing() {
    assert_eq!(
        parse_quant("Huihui-Qwen3.6-35B-A3B-abliterated-ggml-model-Q4_K.gguf").as_deref(),
        Some("Q4_K")
    );
    assert_eq!(
        parse_quant("Llama-3_3-Nemotron-Super-49B-v1.i1-Q4_0.gguf").as_deref(),
        Some("Q4_0")
    );
    assert_eq!(parse_quant("mmproj-F32.gguf").as_deref(), Some("F32"));
}

#[test]
fn safe_segments() {
    assert!(is_safe_segment("a3btemplate.jinja"));
    assert!(is_safe_segment("Huihui-Qwen3.6-35B-A3B-Q4_K.gguf"));
    assert!(!is_safe_segment("../etc/passwd"));
    assert!(!is_safe_segment("a/b"));
    assert!(!is_safe_segment(".."));
}

#[test]
fn more_quant_tags() {
    assert_eq!(parse_quant("model-iq2_xxs.gguf").as_deref(), Some("IQ2_XXS"));
    assert_eq!(parse_quant("model.bf16.gguf").as_deref(), Some("BF16"));
    assert_eq!(parse_quant("model-awq.safetensors").as_deref(), Some("AWQ"));
    assert_eq!(parse_quant("model-Q4_K_M-00001.gguf").as_deref(), Some("Q4_K_M"));
    assert_eq!(parse_quant("Qwen-chat.gguf"), None);
    assert_eq!(parse_quant(""), None);
    assert_eq!(parse_quant("model-Q4_K_XXXL.gguf"), None);
    assert_eq!(quant_from_uppercase("A-F16-Q8_0").as_deref(), Some("F16"));
    assert_eq!(quant_from_uppercase("a-f16"), None);
}

#[test]
fn quant_tags_ignore_the_case() {
    for name in ["Straße-ﬁ-Q4_k.gguf", "ǅ-iQ2_xs.GGUF"] {
        assert_eq!(parse_quant(name), parse_quant(&name.to_ascii_lowercase()), "{name}");
        assert_eq!(parse_quant(name), parse_quant(&name.to_ascii_uppercase()), "{name}");
        assert!(parse_quant(name).is_some());
    }
    for name in ["Model-Q4_K_m.GGUF", "x.I1-iq2_XXS.gguf", "m-Fp8.safetensors", "plain.gguf"] {
        assert_eq!(parse_quant(name), parse_quant(&name.to_lowercase()), "{name}");
        assert_eq!(parse_quant(name), parse_quant(&name.to_uppercase()), "{name}");
    }
    assert_eq!(parse_quant("Model-Q4_K_m.GGUF").as_deref(), Some("Q4_K_M"));
}

#[test]
fn unsafe_segments() {
    for s in ["", ".", "a..b", "a b", "a\\b", "é", "a:b", "/", "a\0"] {
        assert!(!is_safe_segment(s), "{s:?}");
    }
    for s in ["a", ".hidden", "a.b", "x+y=z", "A_b-9", "a."] {
        assert!(is_safe_segment(s), "{s:?}");
    }
}

#[test]
fn slugs() {
    assert_eq!(slugify("Qwen 3.6 (35B)!"), "qwen-3-6-35b");
    assert_eq!(slugify("  --A--  "), "a");
    assert_eq!(slugify("äöü"), "");
    assert_eq!(slugify(""), "");
    assert_eq!(slugify("Already-a-slug"), "already-a-slug");
    assert_eq!(slugify(&slugify("Qwen 3.6 (35B)!")), "qwen-3-6-35b");
    assert!(is_safe_segment(&format!("{}.mdk.yml", slugify("Qwen 3.6"))));
}

#[test]
fn formats() {
    assert_eq!(infer_format("/models/A.GGUF"), ModelFormat::Gguf);
    assert_eq!(infer_format("x.safetensors"), ModelFormat::Safetensors);
    assert_eq!(infer_format("/jarvis/hf-cache/hub/models--a--b"), ModelFormat::HfRepo);
    assert_eq!(infer_format("/x/HUB/models--a"), ModelFormat::HfRepo);
    assert_eq!(infer_format("x.bin"), ModelFormat::Other);
    assert_eq!(format_from_lowercase("x.GGUF"), ModelFormat::Other);
    assert_eq!(format_title(Some(ModelFormat::HfRepo)), format!("{:?}", ModelFormat::HfRepo));
    assert_eq!(format_title(Some(ModelFormat::Gguf)), "Gguf");
    assert_eq!(format_title(Some(ModelFormat::Safetensors)), "Safetensors");
    assert_eq!(format_title(Some(ModelFormat::Other)), "Other");
    assert_eq!(format_title(None), "");
}

#[test]
fn acceleration_names() {
    assert_eq!(AccelKind::from_str_loose(" AMD "), AccelKind::Rocm);
    assert_eq!(AccelKind::from_str_loose("hip"), AccelKind::Rocm);
    assert_eq!(AccelKind::from_str_loose("ROCm"), AccelKind::Rocm);
    assert_eq!(AccelKind::from_str_loose("NVIDIA"), AccelKind::Cuda);
    assert_eq!(AccelKind::from_str_loose("nv"), AccelKind::Cuda);
    assert_eq!(AccelKind::from_str_loose("tpu"), AccelKind::Cpu);
    assert_eq!(AccelKind::from_lowercase("CUDA"), AccelKind::Cpu);
    for a in [AccelKind::Rocm, AccelKind::Cuda, AccelKind::Cpu] {
        assert_eq!(AccelKind::from_str_loose(a.as_str()), a);
    }
}

#[test]
fn engine_labels_round_trip() {
    for e in ALL_ENGINES {
        assert_eq!(engine_from_label(e.as_str()), e);
        assert!(!engine_icon(&e).is_empty());
    }
    assert_eq!(ALL_ENGINES.len(), 5);
    assert_eq!(engine_from_label("tabbyapi"), EngineKind::Custom);
    assert_eq!(EngineKind::default(), EngineKind::LlamaCpp);
    assert_eq!(engine_icon(&EngineKind::LlamaCpp), "🦙");
    assert_eq!(EngineKind::TabbyApi.as_str(), "tabbyAPI");
}

#[test]
fn role_labels_round_trip() {
    for r in [
        TiedFileRole::ChatTemplate,
        TiedFileRole::Grammar,
        TiedFileRole::Config,
        TiedFileRole::Other,
    ] {
        assert_eq!(role_from(&role_str(&r)), r);
        assert_eq!(role_str(&r), r.as_str());
    }
    assert_eq!(role_from("whatever"), TiedFileRole::Other);
    assert_eq!(TiedFileRole::ChatTemplate.as_str(), "chat_template");
}
