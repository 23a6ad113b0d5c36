use siliceo_motor::config::{FileConfig, GenerateDefaults};
use siliceo_motor::settings::{Options, Settings};

fn bits(x: f32) -> Option<u32> {
    Some(x.to_bits())
}

#[test]
fn default_assoluti() {
    let d = GenerateDefaults::default();
    assert_eq!(d.temperature, bits(0.0));
    assert_eq!(d.max_tokens, Some(256));
    assert_eq!(d.top_p, None);
}

#[test]
fn merge_parziale_vince_dove_specifica() {
    let base = GenerateDefaults::default();
    let file = GenerateDefaults { temperature: bits(0.7), top_p: None, top_k: Some(40), max_tokens: None };
    let fuso = base.merge(&file);
    assert_eq!(fuso.temperature, bits(0.7));
    assert_eq!(fuso.max_tokens, Some(256));
    assert_eq!(fuso.top_k, Some(40));
    assert_eq!(fuso.top_p, None);
}

#[test]
fn catena_tre_strati() {
    let d = GenerateDefaults::default();
    let file = GenerateDefaults { temperature: bits(0.7), top_p: None, top_k: None, max_tokens: Some(512) };
    let cli = GenerateDefaults { temperature: None, top_p: bits(0.9), top_k: None, max_tokens: None };
    let fuso = d.merge(&file).merge(&cli);
    assert_eq!(fuso.temperature, bits(0.7));
    assert_eq!(fuso.max_tokens, Some(512));
    assert_eq!(fuso.top_p, bits(0.9));
}

#[test]
fn file_completo() {
    let src = r#"{
            "server": {"host": "0.0.0.0", "port": 9000},
            "model": {"path": "/tmp/m.gguf"},
            "generate": {"temperature": 0.8, "top_k": 20}
        }"#;
    let c = FileConfig::parse(src).unwrap();
    assert_eq!(c.server.host.as_deref(), Some("0.0.0.0"));
    assert_eq!(c.server.port, Some(9000));
    assert_eq!(c.model_path.as_deref(), Some("/tmp/m.gguf"));
    assert_eq!(c.generate.temperature, bits(0.8));
    assert_eq!(c.generate.max_tokens, None);
    assert_eq!(c.generate.top_k, Some(20));
}

#[test]
fn scorciatoia_radice() {
    let c = FileConfig::parse(r#"{"temperature": 1.1}"#).unwrap();
    assert_eq!(c.generate.temperature, bits(1.1));
    assert_eq!(c.server.port, None);
}

#[test]
fn errori_chiariti() {
    assert!(FileConfig::parse("{").is_err());
    assert!(FileConfig::parse(r#"{"generate":{"temperature":"calda"}}"#).is_err());
    assert!(FileConfig::parse(r#"{"generate":{"temperature":99}}"#).is_err());
    assert!(FileConfig::parse(r#"{"server":{"port":99999}}"#).is_err());
    assert!(FileConfig::parse("[1,2]").is_err());
}

#[test]
fn null_in_top_p_e_top_k_ignorato() {
    let g = GenerateDefaults::patch_from_str(r#"{"top_p":null,"temperature":0.5}"#).unwrap();
    assert_eq!(g.temperature, bits(0.5));
    assert_eq!(g.top_p, None);
}

#[test]
fn patch_runtime() {
    let g = GenerateDefaults::patch_from_str(r#"{"max_tokens": 42}"#).unwrap();
    assert_eq!(g.max_tokens, Some(42));
    assert_eq!(g.temperature, None);
}

#[test]
fn complaints_name_the_parameter() {
    let say = |s: &str| FileConfig::parse(s).unwrap_err();
    assert_eq!(say("{"), "config non valida: attesa chiave stringa alla posizione 1");
    assert_eq!(say("[1]"), "la config deve essere un oggetto JSON");
    assert_eq!(say(r#"{"server":{"port":0}}"#), "server.port deve essere 1..65535");
    assert_eq!(say(r#"{"server":{"port":"x"}}"#), "server.port deve essere 1..65535");
    assert_eq!(say(r#"{"temperature":"x"}"#), "generate.temperature non numerica");
    assert_eq!(say(r#"{"temperature":2.5}"#), "generate.temperature fuori range [0,2]: 2.5");
    assert_eq!(say(r#"{"temperature":-0.25}"#), "generate.temperature fuori range [0,2]: -0.25");
    assert_eq!(say(r#"{"top_p":true}"#), "generate.top_p non numerico");
    assert_eq!(say(r#"{"top_k":"x"}"#), "generate.top_k non intero");
    assert_eq!(say(r#"{"max_tokens":[]}"#), "generate.max_tokens non intero");
    assert_eq!(
        GenerateDefaults::patch_from_str("").unwrap_err(),
        "JSON non valido: JSON troncato"
    );
}

#[test]
fn boundary_temperatures_are_accepted() {
    assert_eq!(GenerateDefaults::patch_from_str(r#"{"temperature":2}"#).unwrap().temperature, bits(2.0));
    assert_eq!(GenerateDefaults::patch_from_str(r#"{"temperature":0}"#).unwrap().temperature, bits(0.0));
}

#[test]
fn sections_without_known_keys_are_tolerated() {
    let c = FileConfig::parse(r#"{"model":{"future":1},"server":{},"other":[]}"#).unwrap();
    assert_eq!(c.model_path, None);
    assert_eq!(c.model_template, None);
    assert_eq!(c.server.host, None);
    assert_eq!(c.generate.temperature, None);
}

#[test]
fn change_applied_twice_is_applied_once() {
    let change = GenerateDefaults::patch_from_str(r#"{"temperature":0.5,"top_k":7}"#).unwrap();
    let once = GenerateDefaults::default().merge(&change);
    assert_eq!(once.merge(&change), once);
}

fn args(list: &[&str]) -> Vec<String> {
    list.iter().map(|s| s.to_string()).collect()
}

#[test]
fn command_line_options() {
    let o = Options::parse(&args(&["m.gguf", "--port", "9001", "--host", "0.0.0.0", "--config", "c.json"])).unwrap();
    assert_eq!(o.model.as_deref(), Some("m.gguf"));
    assert_eq!(o.port, Some(9001));
    assert_eq!(o.host.as_deref(), Some("0.0.0.0"));
    assert_eq!(o.config.as_deref(), Some("c.json"));
    // an option at the end, and a port that is none
    let o = Options::parse(&args(&["--model", "x", "--port", "70000", "--config"])).unwrap();
    assert_eq!(o.model.as_deref(), Some("x"));
    assert_eq!(o.port, None);
    assert_eq!(o.config, None);
    assert_eq!(Options::parse(&args(&["--port", "+80"])).unwrap().port, Some(80));
    // two models, an unknown option
    assert!(Options::parse(&args(&["a", "b"])).is_none());
    assert!(Options::parse(&args(&["--what"])).is_none());
}

#[test]
fn layers_of_settings() {
    let system = FileConfig::parse(
        r#"{"server":{"host":"10.0.0.1","port":1},"model":{"path":"sys.gguf","template":"llama3"},"generate":{"temperature":0.1,"max_tokens":5}}"#,
    ).unwrap();
    let user = FileConfig::parse(r#"{"server":{"port":2},"generate":{"temperature":0.2}}"#).unwrap();
    let o = Options::parse(&args(&["--port", "3"])).unwrap();
    let s = Settings::resolve(Some(system.clone()), Some(user.clone()), o).unwrap();
    assert_eq!(s.port, 3);
    assert_eq!(s.host, "10.0.0.1");
    assert_eq!(s.model_path, "sys.gguf");
    assert_eq!(s.template.as_deref(), Some("llama3"));
    assert_eq!(s.generate.temperature, bits(0.2));
    assert_eq!(s.generate.max_tokens, Some(5));
    let s = Settings::resolve(Some(system), Some(user), Options::parse(&[]).unwrap()).unwrap();
    assert_eq!(s.port, 2);
    // built-in defaults
    let s = Settings::resolve(None, None, Options::parse(&args(&["m"])).unwrap()).unwrap();
    assert_eq!((s.host.as_str(), s.port), ("127.0.0.1", 8096));
    assert_eq!(s.generate, GenerateDefaults::default());
    assert!(Settings::resolve(None, None, Options::parse(&[]).unwrap()).is_none());
}
