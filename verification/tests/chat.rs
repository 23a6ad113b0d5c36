use siliceo_motor::chat::{ChatTemplate, Format};

const TPL_QWEN: &str =
    r#"{% for m in messages %}<|im_start|>{{ m.role }}\n{{ m.content }}<|im_end|>\n{% endfor %}"#;
const TPL_LLAMA3: &str =
    r#"{% for m in messages %}<|start_header_id|>{{ m.role }}<|end_header_id|>\n\n{{ m.content }}<|eot_id|>{% endfor %}"#;

#[test]
fn chatml_render_uguale_al_vecchio_cablato() {
    let t = ChatTemplate { format: Format::ChatML, source: "test" };
    let out = t.render(&[("system", "Sei utile."), ("user", "Ciao")]);
    assert_eq!(out, "<|im_start|>system\nSei utile.<|im_end|>\n<|im_start|>user\nCiao<|im_end|>\n<|im_start|>assistant\n");
}

#[test]
fn llama3_render() {
    let t = ChatTemplate { format: Format::Llama3, source: "test" };
    let out = t.render(&[("user", "Hi"), ("assistant", "Hello!")]);
    assert_eq!(out, "<|begin_of_text|><|start_header_id|>user<|end_header_id|>\n\nHi<|eot_id|><|start_header_id|>assistant<|end_header_id|>\n\nHello!<|eot_id|><|start_header_id|>assistant<|end_header_id|>\n\n");
}

#[test]
fn rilevamento_da_gguf() {
    let t = ChatTemplate::detect("qwen2", Some(TPL_QWEN), None).unwrap();
    assert_eq!(t.format, Format::ChatML);
    assert_eq!(t.source, "gguf");
    let t = ChatTemplate::detect("llama", Some(TPL_LLAMA3), None).unwrap();
    assert_eq!(t.format, Format::Llama3);
    assert_eq!(t.source, "gguf");
}

#[test]
fn override_config_vince_su_tutto() {
    let t = ChatTemplate::detect("qwen2", Some(TPL_QWEN), Some("llama3")).unwrap();
    assert_eq!(t.format, Format::Llama3);
    assert_eq!(t.source, "config");
    let t = ChatTemplate::detect("qwen2", Some(TPL_QWEN), Some("auto")).unwrap();
    assert_eq!(t.format, Format::ChatML);
    assert_eq!(t.source, "gguf");
}

#[test]
fn override_sconosciuto_errore_chiaro() {
    let e = ChatTemplate::detect("qwen2", None, Some("mystyle")).unwrap_err();
    assert!(e.contains("mystyle"));
}

#[test]
fn fallback_per_architettura_e_default() {
    let t = ChatTemplate::detect("qwen2", None, None).unwrap();
    assert_eq!((t.format, t.source), (Format::ChatML, "arch"));
    let t = ChatTemplate::detect("llama", None, None).unwrap();
    assert_eq!((t.format, t.source), (Format::Llama3, "arch"));
    let t = ChatTemplate::detect("gemma2", None, None).unwrap();
    assert_eq!((t.format, t.source), (Format::ChatML, "default"));
}

#[test]
fn template_gguf_non_riconoscibile_cade_sull_arch() {
    let t = ChatTemplate::detect("qwen2", Some("{{ bos }}{{ content }}"), None).unwrap();
    assert_eq!((t.format, t.source), (Format::ChatML, "arch"));
}

#[test]
fn stop_tokens_per_formato() {
    assert_eq!(Format::ChatML.stop_tokens(), &["<|im_end|>"]);
    assert!(Format::Llama3.stop_tokens().contains(&"<|eot_id|>"));
}

#[test]
fn names_and_empty_conversations() {
    assert_eq!(Format::ChatML.name(), "chatml");
    assert_eq!(Format::Llama3.name(), "llama3");
    let t = ChatTemplate { format: Format::ChatML, source: "test" };
    assert_eq!(t.render(&[]), "<|im_start|>assistant\n");
}
