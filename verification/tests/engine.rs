use siliceo_motor::config::GenerateDefaults;
use siliceo_motor::generate::{cut_at_stop, positions, GenerateParams, Generated, Generation};
use siliceo_motor::http::Request;
use siliceo_motor::json::parse;
use siliceo_motor::pre::{bytes_to_unicode, PreError, PreTokenizer};
use siliceo_motor::qwen2::{Config, Model};
use siliceo_motor::server::{
    completion_id, completion_id_at, error, get_config, handle, health, model_not_found, params_from_json, replace_model,
    respond_json_chat, respond_json_completion, Action, Inner, Reply, Served,
};
use siliceo_motor::tokenizer::{Tokenizer, TokenizerError};
use siliceo_motor::value::GgufError;
use std::sync::Arc;

// ── a small model ──

fn text(v: &mut Vec<u8>, s: &str) {
    v.extend_from_slice(&(s.len() as u64).to_le_bytes());
    v.extend_from_slice(s.as_bytes());
}

struct File {
    kv: Vec<(String, Vec<u8>)>,
    tensors: Vec<(String, Vec<u64>, Vec<f32>)>,
}

impl File {
    fn put(&mut self, key: &str, kind: u32, value: &[u8]) {
        let mut v = kind.to_le_bytes().to_vec();
        v.extend_from_slice(value);
        self.kv.push((key.to_string(), v));
    }
    fn string(&mut self, key: &str, s: &str) {
        let mut v = Vec::new();
        text(&mut v, s);
        self.put(key, 8, &v);
    }
    fn number(&mut self, key: &str, n: u32) {
        self.put(key, 4, &n.to_le_bytes());
    }
    fn float(&mut self, key: &str, x: f32) {
        self.put(key, 6, &x.to_le_bytes());
    }
    fn strings(&mut self, key: &str, items: &[String]) {
        let mut v = 8u32.to_le_bytes().to_vec();
        v.extend_from_slice(&(items.len() as u64).to_le_bytes());
        for s in items {
            text(&mut v, s);
        }
        self.put(key, 9, &v);
    }
    fn tensor(&mut self, name: &str, dims: &[u64]) {
        let n: u64 = dims.iter().product();
        let data = (0..n).map(|i| i as f32).collect();
        self.tensors.push((name.to_string(), dims.to_vec(), data));
    }
    fn without(mut self, name: &str) -> Self {
        self.kv.retain(|(k, _)| k != name);
        self.tensors.retain(|(k, _, _)| k != name);
        self
    }
    fn bytes(&self) -> Vec<u8> {
        let mut v = b"GGUF".to_vec();
        v.extend_from_slice(&3u32.to_le_bytes());
        v.extend_from_slice(&(self.tensors.len() as u64).to_le_bytes());
        v.extend_from_slice(&(self.kv.len() as u64).to_le_bytes());
        for (key, value) in &self.kv {
            text(&mut v, key);
            v.extend_from_slice(value);
        }
        let mut offset = 0u64;
        for (name, dims, data) in &self.tensors {
            text(&mut v, name);
            v.extend_from_slice(&(dims.len() as u32).to_le_bytes());
            for d in dims {
                v.extend_from_slice(&d.to_le_bytes());
            }
            v.extend_from_slice(&0u32.to_le_bytes());
            v.extend_from_slice(&offset.to_le_bytes());
            offset += 4 * data.len() as u64;
        }
        while v.len() % 32 != 0 {
            v.push(0);
        }
        for (_, _, data) in &self.tensors {
            for x in data {
                v.extend_from_slice(&x.to_le_bytes());
            }
        }
        v
    }
}

const MERGED: [&str; 4] = ["ci", "ao", "ciao", "Ġm"];
const SPECIAL: [&str; 4] = ["<|im_start|>", "<|im_end|>", "<|x|>", "<|endoftext|>"];
const CI: u32 = 256;
const CIAO: u32 = 258;
const GM: u32 = 259;
const IM_START: u32 = 260;
const IM_END: u32 = 261;
const END: u32 = 263;

fn model() -> File {
    let mut f = File { kv: Vec::new(), tensors: Vec::new() };
    f.string("general.architecture", "qwen2");
    f.number("qwen2.embedding_length", 4);
    f.number("qwen2.attention.head_count", 2);
    f.number("qwen2.attention.head_count_kv", 1);
    f.number("llama.block_count", 1);
    f.number("qwen2.feed_forward_length", 8);
    f.float("qwen2.rope.freq_base", 1000000.0);
    f.float("qwen2.attention.layer_norm_rms_epsilon", 1e-6);
    let mut tokens: Vec<String> = bytes_to_unicode().iter().map(|c| c.to_string()).collect();
    tokens.extend(MERGED.iter().map(|s| s.to_string()));
    tokens.extend(SPECIAL.iter().map(|s| s.to_string()));
    let n = tokens.len() as u64;
    f.strings("tokenizer.ggml.tokens", &tokens);
    let merges = ["c i", "a o", "ci ao", "Ġ m"];
    f.strings("tokenizer.ggml.merges", &merges.map(|s| s.to_string()));
    f.strings("tokenizer.ggml.token_type", &[]);
    f.number("tokenizer.ggml.bos_token_id", END);
    f.number("tokenizer.ggml.eos_token_id", END);
    f.string("tokenizer.ggml.pre", "qwen2");
    f.tensor("token_embd.weight", &[4, n]);
    f.tensor("output_norm.weight", &[4]);
    for part in ["attn_norm.weight", "ffn_norm.weight"] {
        f.tensor(&format!("blk.0.{part}"), &[4]);
    }
    for (part, rows) in [("attn_q", 4), ("attn_k", 2), ("attn_v", 2), ("attn_output", 4)] {
        f.tensor(&format!("blk.0.{part}.weight"), &[4, rows]);
    }
    f.tensor("blk.0.attn_q.bias", &[4]);
    f.tensor("blk.0.ffn_gate.weight", &[4, 8]);
    f.tensor("blk.0.ffn_up.weight", &[4, 8]);
    f.tensor("blk.0.ffn_down.weight", &[8, 4]);
    f
}

fn tokenizer() -> Tokenizer {
    Tokenizer::from_gguf(&model().bytes()).ok().unwrap()
}

fn inner() -> Inner {
    Inner::load(&model().bytes(), "tiny.gguf", None).ok().unwrap()
}

// ── pre-tokenizer and byte table ──

#[test]
fn byte_mapping_covers_all_256() {
    let m = bytes_to_unicode();
    assert_eq!(m.len(), 256);
    let mut seen = std::collections::HashSet::new();
    for &c in &m {
        assert!(seen.insert(c), "carattere duplicato {c:?}");
    }
    assert_eq!(m[65], 'A');
    assert_eq!(m[33], '!');
    assert_eq!(m[32], 'Ġ');
    assert_eq!(m[10], 'Ċ');
    assert_eq!(m[0xAD], '\u{143}');
}

#[test]
fn pieces_of_a_text() {
    for kind in ["qwen2", "gpt2", "llama3", "default"] {
        let pre = PreTokenizer::for_kind(kind).ok().unwrap();
        assert_eq!(pre.split("Il motore! 123"), vec!["Il", " motore", "!", " ", "123"]);
    }
    let pre = PreTokenizer::for_kind("qwen2").ok().unwrap();
    assert_eq!(pre.split("it's  x\n\n"), vec!["it", "'s", " ", " x", "\n\n"]);
    assert_eq!(pre.split("12345"), vec!["123", "45"]);
    assert_eq!(pre.split(""), Vec::<String>::new());
    assert_eq!(pre.split("però … è").concat(), "però … è");
    let e = PreTokenizer::for_kind("bert").err().unwrap();
    assert_eq!(e.message(), "pre-tokenizer sconosciuto: bert");
}

// ── tokenizer ──

#[test]
fn speciale_intero_non_spezzato() {
    let tok = tokenizer();
    let id_atteso = tok.token_to_id("<|im_start|>").expect("<|im_start|> nel vocab");
    assert_eq!(id_atteso, IM_START);
    let ids = tok.encode("<|im_start|>").unwrap();
    assert_eq!(ids, vec![id_atteso], "<|im_start|> deve dare ESATTAMENTE il suo id");
}

#[test]
fn speciale_in_mezzo_al_testo() {
    let tok = tokenizer();
    let im_end = tok.token_to_id("<|im_end|>").unwrap();
    let ids = tok.encode("ciao<|im_end|>mondo").unwrap();
    assert!(ids.contains(&im_end), "l'id di <|im_end|> deve comparire intero");
    assert!(ids.len() > 3);
    assert_eq!(ids[..2], [CIAO, IM_END]);
}

#[test]
fn roundtrip_con_speciali() {
    let tok = tokenizer();
    let ids = tok.encode("a<|im_start|>b").unwrap();
    let testo = tok.decode(&ids).unwrap();
    assert_eq!(testo, "ab");
}

#[test]
fn longest_match_vince() {
    let tok = tokenizer();
    let lunghi: Vec<&String> = tok.specials().iter().filter(|s| s.len() > 8).take(1).collect();
    assert!(!lunghi.is_empty());
    let sp = lunghi[0].clone();
    let id = tok.token_to_id(&sp).unwrap();
    let ids = tok.encode(&sp).unwrap();
    assert_eq!(ids, vec![id]);
    // of two that match, the longer one
    let mut f = model().without("tokenizer.ggml.tokens");
    let mut tokens: Vec<String> = bytes_to_unicode().iter().map(|c| c.to_string()).collect();
    tokens.extend(["<|a|>".to_string(), "<|a|>b|>".to_string()]);
    f.strings("tokenizer.ggml.tokens", &tokens);
    let tok = Tokenizer::from_gguf(&f.bytes()).ok().unwrap();
    assert_eq!(tok.encode("<|a|>b|>").unwrap(), vec![257]);
    assert_eq!(tok.encode("<|a|>b").unwrap(), vec![256, 98]);
}

#[test]
fn merges_in_order_of_rank() {
    let tok = tokenizer();
    assert_eq!(tok.encode("ciao m").unwrap(), vec![CIAO, GM]);
    assert_eq!(tok.encode("cia").unwrap(), vec![CI, 97]);
    assert_eq!(tok.encode("").unwrap(), Vec::<u32>::new());
    assert_eq!(tok.vocab_size(), 264);
    assert_eq!(tok.bos_id(), Some(END));
    assert_eq!(tok.eos_id(), Some(END));
    assert_eq!(tok.token_to_id("nope"), None);
}

#[test]
fn texts_decode_to_themselves() {
    let tok = tokenizer();
    for t in ["Il motore sovrano genera token identici! Test 123.", "però, è tardi\n\n  già 😀", " ", "a\u{0}b"] {
        assert_eq!(tok.decode(&tok.encode(t).unwrap()).unwrap(), t);
    }
}

#[test]
fn beginning_of_sequence_on_demand() {
    let tok = tokenizer();
    assert_eq!(tok.encode_with_specials("ciao").unwrap(), vec![CIAO]);
    let mut f = model();
    f.put("tokenizer.ggml.add_bos_token", 7, &[1]);
    let tok = Tokenizer::from_gguf(&f.bytes()).ok().unwrap();
    assert_eq!(tok.encode_with_specials("ciao").unwrap(), vec![END, CIAO]);
    assert_eq!(tok.encode("ciao").unwrap(), vec![CIAO]);
}

#[test]
fn tokenizers_that_do_not_load() {
    let fail = |f: File| Tokenizer::from_gguf(&f.bytes()).err().unwrap().message();
    assert_eq!(fail(model().without("tokenizer.ggml.tokens")), "KV mancante nel GGUF: tokenizer.ggml.tokens");
    assert_eq!(fail(model().without("tokenizer.ggml.merges")), "KV mancante nel GGUF: tokenizer.ggml.merges");
    let mut f = model().without("tokenizer.ggml.merges");
    f.number("tokenizer.ggml.merges", 1);
    assert_eq!(fail(f), "tipo KV inatteso per tokenizer.ggml.merges");
    let mut f = model().without("tokenizer.ggml.merges");
    f.strings("tokenizer.ggml.merges", &["a\"b".to_string()]);
    assert!(fail(f).contains("merge malformato: \"a\\\"b\""));
    let mut f = model().without("tokenizer.ggml.pre");
    f.string("tokenizer.ggml.pre", "bert");
    assert_eq!(fail(f), "pre-tokenizer sconosciuto: bert");
    assert_eq!(
        Tokenizer::from_gguf(b"NOPE").err().unwrap().message(),
        "GGUF: bad magic (expected GGUF)"
    );
}

#[test]
fn unknown_tokens() {
    let tok = tokenizer();
    assert_eq!(
        tok.decode(&[9999]).unwrap_err().message(),
        "token non trovato nel vocabolario: \"<id 9999>\""
    );
    // half a character
    assert_eq!(
        tok.decode(&[0xC3]).unwrap_err().message(),
        "token non trovato nel vocabolario: \"decode utf8\""
    );
    let mut f = model().without("tokenizer.ggml.tokens");
    f.strings("tokenizer.ggml.tokens", &["a".to_string()]);
    let tok = Tokenizer::from_gguf(&f.bytes()).ok().unwrap();
    assert_eq!(tok.encode("ab").unwrap_err().message(), "token non trovato nel vocabolario: \"b\"");
}

#[test]
fn messages_of_tokenizer_errors() {
    let e = fancy_regex::Regex::new("(").unwrap_err();
    let own = e.to_string();
    assert_eq!(
        TokenizerError::Pre(PreError::Regex(e)).message(),
        format!("pre-tokenizzazione: regex: {own}")
    );
    assert_eq!(
        TokenizerError::Pre(PreError::UnknownKind("k".into())).message(),
        "pre-tokenizzazione: famiglia pre-tokenizer sconosciuta: k"
    );
    assert_eq!(TokenizerError::Gguf(GgufError::BadType(7)).message(), "GGUF: bad value type 7");
    assert_eq!(
        TokenizerError::UnknownToken("a\n".into()).message(),
        "token non trovato nel vocabolario: \"a\\n\""
    );
}

// ── model ──

#[test]
fn model_is_loaded() {
    let m = Model::load(&model().bytes()).unwrap();
    assert_eq!(
        m.config,
        Config {
            n_layers: 1,
            n_embd: 4,
            n_ff: 8,
            n_heads: 2,
            n_kv_heads: 1,
            head_dim: 2,
            rope_theta: 1000000.0f32.to_bits(),
            rms_eps: 1e-6f32.to_bits(),
            vocab_size: 264,
        }
    );
    assert_eq!(m.layers.len(), 1);
    assert_eq!(m.output, None);
    assert_eq!(m.layers[0].bk, None);
    let four: Vec<u32> = [0.0f32, 1.0, 2.0, 3.0].iter().map(|x| x.to_bits()).collect();
    assert_eq!(m.layers[0].bq, Some(four.clone()));
    assert_eq!(m.output_norm, four);
    let mut f = model();
    f.tensor("output.weight", &[2]);
    let m = Model::load(&f.bytes()).unwrap();
    assert_eq!(m.output, Some(vec![0, 1.0f32.to_bits()]));
}

#[test]
fn models_that_do_not_load() {
    let fail = |f: File| Model::load(&f.bytes()).unwrap_err();
    assert_eq!(fail(model().without("qwen2.embedding_length")), "metadata mancante: embedding_length");
    let mut f = model().without("qwen2.feed_forward_length");
    f.string("llama.feed_forward_length", "x");
    assert_eq!(fail(f), "llama.feed_forward_length: tipo inatteso");
    let mut f = model().without("qwen2.rope.freq_base");
    f.number("qwen2.rope.freq_base", 1);
    assert_eq!(fail(f), "qwen2.rope.freq_base: tipo inatteso");
    let mut f = model().without("qwen2.attention.head_count");
    f.number("qwen2.attention.head_count", 0);
    assert_eq!(fail(f), "attention.head_count: zero");
    assert_eq!(fail(model().without("token_embd.weight")), "tensor not found: token_embd.weight");
    assert_eq!(
        fail(model().without("output_norm.weight")),
        "output_norm.weight: tensor not found: output_norm.weight"
    );
    assert_eq!(
        fail(model().without("blk.0.ffn_up.weight")),
        "blk.0.ffn_up.weight: tensor not found: blk.0.ffn_up.weight"
    );
    assert_eq!(Model::load(b"GGUX\0\0\0\0").unwrap_err(), "bad magic (expected GGUF)");
    let whole = model().bytes();
    assert_eq!(
        Model::load(&whole[..whole.len() - 4]).unwrap_err(),
        "blk.0.ffn_down.weight: truncated data (attesi 128 byte, trovati 124)"
    );
}

// ── generation ──

#[test]
fn defaults_sensati() {
    let p = GenerateParams::default();
    assert_eq!(p.temperature, 0.0f32.to_bits());
    assert_eq!(p.max_tokens, 256);
    assert!(p.stop.is_empty());
}

/// Runs a generation over the tokens that a model would choose.
fn run(tok: &Tokenizer, params: &GenerateParams, choices: &[u32]) -> Generated {
    let mut g = Generation::new(tok, params);
    let mut k = 0;
    let mut read = Vec::new();
    while g.wants_more() {
        read.extend(g.input(&[1, 2]));
        g.accept(choices[k]);
        k += 1;
    }
    // the prompt once, then every token once
    if k > 0 {
        assert_eq!(read[..2], [1, 2]);
        assert_eq!(read[2..], choices[..k - 1]);
    }
    g.finish(2, 2.0f32.to_bits())
}

fn ids(s: &str) -> Vec<u32> {
    s.bytes().map(|b| b as u32).collect()
}

#[test]
fn generation_ends_at_the_limit() {
    let tok = tokenizer();
    let params = GenerateParams { max_tokens: 3, ..GenerateParams::default() };
    let out = run(&tok, &params, &ids("abcdef"));
    assert_eq!((out.text.as_str(), out.finish_reason), ("abc", "length"));
    assert_eq!(out.ids, ids("abc"));
    assert_eq!(out.prompt_tokens, 2);
    assert_eq!(f32::from_bits(out.tokens_per_sec()), 1.5);
    let params = GenerateParams { max_tokens: 0, ..GenerateParams::default() };
    let out = run(&tok, &params, &[]);
    assert_eq!((out.text.as_str(), out.finish_reason, out.ids.len()), ("", "length", 0));
}

#[test]
fn generation_ends_at_an_end_token() {
    let tok = tokenizer();
    let mut params = GenerateParams::default();
    let out = run(&tok, &params, &[97, END, 98]);
    assert_eq!((out.text.as_str(), out.finish_reason), ("a", "stop"));
    assert_eq!(out.ids, vec![97, END]);
    params.extra_eos = vec![IM_END];
    let out = run(&tok, &params, &[97, IM_END, 98]);
    assert_eq!((out.text.as_str(), out.finish_reason), ("a", "stop"));
}

#[test]
fn generation_ends_at_a_stop_string() {
    let tok = tokenizer();
    let mut params = GenerateParams::default();
    params.stop = vec![String::new(), "zz".into(), "cd".into(), "b".into()];
    // the first listed one that shows decides where the text is cut
    let out = run(&tok, &params, &ids("abcd"));
    assert_eq!((out.text.as_str(), out.finish_reason), ("a", "stop"));
    assert_eq!(out.ids, ids("ab"));
    assert_eq!(cut_at_stop("xabcdb", &params.stop), Some("xab".to_string()));
    assert_eq!(cut_at_stop("xy", &params.stop), None);
    // a stop string that only ends with the last token
    params.stop = vec!["ao".into()];
    let out = run(&tok, &params, &[120, CIAO]);
    assert_eq!((out.text.as_str(), out.ids.len()), ("xci", 2));
}

#[test]
fn text_that_does_not_decode_is_empty() {
    let tok = tokenizer();
    let params = GenerateParams { max_tokens: 1, ..GenerateParams::default() };
    let out = run(&tok, &params, &[0xC3]);
    assert_eq!((out.text.as_str(), out.finish_reason), ("", "length"));
}

#[test]
fn rates_are_the_nearest_floats() {
    for (n, secs) in [(1usize, 3.0f32), (50, 0.37), (256, 12.345), (7, 1e-9), (3, 1e30), (100000, 7.1)] {
        let out = Generated {
            ids: vec![0; n],
            text: String::new(),
            finish_reason: "stop",
            prompt_tokens: 0,
            elapsed_secs: secs.to_bits(),
        };
        assert_eq!(out.tokens_per_sec(), (n as f32 / secs).to_bits());
    }
    for secs in [0.0f32, -1.0, f32::NAN, f32::INFINITY] {
        let out = Generated {
            ids: vec![0; 4],
            text: String::new(),
            finish_reason: "stop",
            prompt_tokens: 0,
            elapsed_secs: secs.to_bits(),
        };
        assert_eq!(out.tokens_per_sec(), 0);
    }
}

#[test]
fn room_for_the_sequence() {
    let params = GenerateParams::default();
    assert_eq!(positions(10, &params), Some(266));
    assert_eq!(positions(usize::MAX, &params), None);
}

// ── server ──

fn request(method: &str, path: &str, body: &str) -> Request {
    Request { method: method.into(), path: path.into(), body: body.as_bytes().to_vec() }
}

fn act(method: &str, path: &str, body: &str) -> Action {
    handle(&inner(), &GenerateDefaults::default(), "127.0.0.1", 8096, &request(method, path, body))
}

fn answer(a: Action) -> Reply {
    match a {
        Action::Answer(r) => r,
        other => panic!("unexpected {other:?}"),
    }
}

fn refusal(method: &str, path: &str, body: &str) -> String {
    let r = answer(act(method, path, body));
    assert_eq!(r.status, 400);
    parse(&r.body).unwrap().get("error").unwrap().as_str().unwrap().to_string()
}

#[test]
fn health_of_the_server() {
    let r = answer(act("GET", "/health?x=1", ""));
    assert_eq!(r.status, 200);
    assert_eq!(
        r.body,
        "{\"status\":\"ok\",\"model\":\"tiny.gguf\",\"layers\":1,\"embd\":4,\"chat\":\"chatml\",\"tpl_from\":\"arch\"}"
    );
    assert_eq!(health(&inner()).body, r.body);
    assert!(r.respond().starts_with("HTTP/1.1 200 OK\r\n"));
}

#[test]
fn unknown_endpoints() {
    let r = answer(act("PUT", "/v1/x\"?q", ""));
    assert_eq!(r.status, 404);
    assert_eq!(r.body, "{\"error\":\"endpoint sconosciuto: PUT /v1/x\\\"?q\"}");
    assert!(r.respond().starts_with("HTTP/1.1 404 Not Found\r\n"));
    assert_eq!(answer(act("POST", "/health", "")).status, 404);
    assert!(error(418, "x").respond().starts_with("HTTP/1.1 418 ?\r\n"));
    assert!(error(500, "x").respond().starts_with("HTTP/1.1 500 Internal Server Error\r\n"));
}

#[test]
fn configuration_is_told_and_changed() {
    let r = answer(act("GET", "/v1/config", ""));
    assert_eq!(
        r.body,
        "{\"server\":{\"host\":\"127.0.0.1\",\"port\":8096},\"generate\":{\"temperature\":0,\"top_p\":null,\"top_k\":null,\"max_tokens\":256}}"
    );
    let g = match act("POST", "/v1/config", "{\"generate\":{\"temperature\":0.7,\"top_k\":40}}") {
        Action::Configure(g) => g,
        other => panic!("unexpected {other:?}"),
    };
    assert_eq!(g.temperature, Some(0.7f32.to_bits()));
    assert_eq!(g.max_tokens, Some(256));
    assert_eq!(
        get_config("h", 1, &g).body,
        "{\"server\":{\"host\":\"h\",\"port\":1},\"generate\":{\"temperature\":0.7,\"top_p\":null,\"top_k\":40,\"max_tokens\":256}}"
    );
    assert!(matches!(act("POST", "/v1/config", "{\"top_p\":0.5}"), Action::Configure(g) if g.top_p == Some(0.5f32.to_bits())));
    assert_eq!(refusal("POST", "/v1/config", "{"), "JSON non valido: attesa chiave stringa alla posizione 1");
    assert_eq!(refusal("POST", "/v1/config", "{\"temperature\":3}"), "generate.temperature fuori range [0,2]: 3");
    let bad = Request { method: "POST".into(), path: "/v1/config".into(), body: vec![0xff] };
    let r = answer(handle(&inner(), &GenerateDefaults::default(), "h", 1, &bad));
    assert_eq!(r.body, "{\"error\":\"body non è UTF-8\"}");
}

#[test]
fn completions_become_jobs() {
    let job = match act("POST", "/v1/completions", "{\"prompt\":\"ciao m\",\"max_tokens\":5,\"seed\":7,\"stop\":\"x\"}") {
        Action::Complete(job) => job,
        other => panic!("unexpected {other:?}"),
    };
    assert_eq!(job.ids, vec![CIAO, GM]);
    assert_eq!(job.params.max_tokens, 5);
    assert_eq!(job.params.seed, Some(7));
    assert_eq!(job.params.stop, vec!["x".to_string()]);
    assert_eq!(job.params.temperature, 0);
    assert!(job.params.extra_eos.is_empty());
    let no = |b: &str| refusal("POST", "/v1/completions", b);
    assert_eq!(no("{\"prompt\":1}"), "campo 'prompt' mancante o non stringa");
    assert_eq!(no("x"), "numero non valido: \"\"");
}

#[test]
fn chats_become_jobs() {
    let job = match act("POST", "/v1/chat/completions", "{\"messages\":[{\"role\":\"ci\",\"content\":\"ciao\"}]}") {
        Action::Chat(job) => job,
        other => panic!("unexpected {other:?}"),
    };
    let tok = tokenizer();
    assert_eq!(tok.decode(&job.ids).unwrap(), "ci\nciao\nassistant\n");
    assert_eq!(job.ids[0], IM_START);
    assert_eq!(job.params.extra_eos, vec![IM_END]);
    let no = |b: &str| refusal("POST", "/v1/chat/completions", b);
    assert_eq!(no("{}"), "campo 'messages' mancante o vuoto");
    assert_eq!(no("{\"messages\":[]}"), "campo 'messages' mancante o vuoto");
    assert_eq!(no("{\"messages\":[{\"role\":\"u\"}]}"), "message senza 'role' o 'content' stringa");
    assert_eq!(no("{\"messages\":[{\"role\":\"u\",\"content\":\"\"}]}"), "message senza 'role' o 'content' stringa");
}

#[test]
fn parameters_of_requests() {
    let base = GenerateDefaults { temperature: Some(0.25f32.to_bits()), top_p: None, top_k: Some(3), max_tokens: None };
    let p = params_from_json(&base, &parse("{\"temperature\":5,\"top_p\":0.9,\"stop\":[\"a\",\"b\"]}").unwrap()).unwrap();
    assert_eq!(p.temperature, 5.0f32.to_bits());
    assert_eq!(p.top_p, Some(0.9f32.to_bits()));
    assert_eq!(p.top_k, Some(3));
    assert_eq!(p.max_tokens, 256);
    assert_eq!(p.seed, None);
    assert_eq!(p.stop, vec!["a".to_string(), "b".to_string()]);
    let no = |s: &str| params_from_json(&base, &parse(s).unwrap()).unwrap_err();
    assert_eq!(no("{\"temperature\":null}"), "temperature non numerica");
    assert_eq!(no("{\"top_p\":\"x\"}"), "top_p non numerico");
    assert_eq!(no("{\"top_k\":\"x\"}"), "top_k non intero");
    assert_eq!(no("{\"max_tokens\":\"x\"}"), "max_tokens non intero");
    assert_eq!(no("{\"seed\":\"x\"}"), "seed non numerico");
    assert_eq!(no("{\"stop\":[1]}"), "stop: elementi non stringa");
    assert_eq!(no("{\"stop\":1}"), "stop deve essere stringa o array di stringhe");
}

#[test]
fn models_are_replaced() {
    match act("POST", "/v1/model", "{\"path\":\"/m/x.gguf\"}") {
        Action::Load(p) => assert_eq!(p, "/m/x.gguf"),
        other => panic!("unexpected {other:?}"),
    }
    assert_eq!(refusal("POST", "/v1/model", "{\"path\":\"\"}"), "campo 'path' mancante o vuoto");
    assert_eq!(refusal("POST", "/v1/model", "{}"), "campo 'path' mancante o vuoto");
    assert_eq!(model_not_found("/x").body, "{\"error\":\"file non trovato: /x\"}");
    let old = Arc::new(Served { inner: inner(), network: 1 });
    let inner = Inner::load(&model().bytes(), "new \"m\"", Some("llama3")).ok().unwrap();
    assert_eq!(inner.chat.source, "config");
    let (now, reply) = replace_model(old.clone(), Ok(Arc::new(Served { inner, network: 2 })));
    assert_eq!((now.inner.model_name.as_str(), now.network), ("new \"m\"", 2));
    assert_eq!((reply.status, reply.body.as_str()), (200, "{\"status\":\"ok\",\"model\":\"new \\\"m\\\"\"}"));
    let (now, reply) = replace_model(old, Err("boh".into()));
    assert_eq!((now.inner.model_name.as_str(), now.network), ("tiny.gguf", 1));
    assert_eq!(reply.status, 400);
    assert_eq!(reply.body, "{\"error\":\"caricamento fallito (boh): il modello precedente resta attivo\"}");
}

#[test]
fn models_that_cannot_be_served() {
    let fail = |b: &[u8], over: Option<&str>| Inner::load(b, "m", over).err().unwrap();
    assert_eq!(fail(b"NOPE", None), "tokenizer: GGUF: bad magic (expected GGUF)");
    assert_eq!(
        fail(&model().without("tokenizer.ggml.merges").bytes(), None),
        "tokenizer: KV mancante nel GGUF: tokenizer.ggml.merges"
    );
    assert_eq!(
        fail(&model().without("output_norm.weight").bytes(), None),
        "modello: output_norm.weight: tensor not found: output_norm.weight"
    );
    assert!(fail(&model().bytes(), Some("mystyle")).contains("mystyle"));
}

fn generated() -> Generated {
    Generated {
        ids: vec![1, 2, 3],
        text: "a \"b\"\nè".into(),
        finish_reason: "stop",
        prompt_tokens: 4,
        elapsed_secs: 2.0f32.to_bits(),
    }
}

#[test]
fn answers_of_completions() {
    let r = respond_json_completion("cmpl-1", &generated());
    assert_eq!(
        r.body,
        "{\"id\":\"cmpl-1\",\"object\":\"text_completion\",\"choices\":[{\"text\":\"a \\\"b\\\"\\nè\",\"finish_reason\":\"stop\"}],\
         \"usage\":{\"prompt_tokens\":4,\"completion_tokens\":3,\"total_tokens\":7},\"tokens_per_second\":1.50}"
    );
    let j = parse(&r.body).unwrap();
    let choice = &j.get("choices").unwrap().as_arr().unwrap()[0];
    assert_eq!(choice.get("text").unwrap().as_str(), Some("a \"b\"\nè"));
    assert_eq!(j.get("tokens_per_second").unwrap().as_f64(), Some(1.5f64.to_bits()));
}

#[test]
fn answers_of_chats() {
    let r = respond_json_chat("cmpl-1", &generated());
    assert_eq!(
        r.body,
        "{\"id\":\"cmpl-1\",\"object\":\"chat.completion\",\"choices\":[{\"index\":0,\"message\":{\"role\":\"assistant\",\"content\":\"a \\\"b\\\"\\nè\"},\
         \"finish_reason\":\"stop\"}],\"usage\":{\"prompt_tokens\":4,\"completion_tokens\":3,\"total_tokens\":7},\"tokens_per_second\":1.50}"
    );
    let j = parse(&r.body).unwrap();
    let choice = &j.get("choices").unwrap().as_arr().unwrap()[0];
    assert_eq!(choice.get("message").unwrap().get("content").unwrap().as_str(), Some("a \"b\"\nè"));
}

#[test]
fn speeds_have_two_decimals() {
    for (n, secs) in [(1usize, 8.0f32), (3, 8.0), (1, 3.0), (2, 3.0), (7, 0.013), (1, 1e9), (5, 1e-30), (999, 1.0), (1, 200.0)] {
        let mut out = generated();
        out.ids = vec![0; n];
        out.elapsed_secs = secs.to_bits();
        let want = format!("\"tokens_per_second\":{:.2}}}", n as f32 / secs);
        assert!(respond_json_completion("i", &out).body.ends_with(&want), "{want}");
    }
}

#[test]
fn names_of_answers() {
    assert_eq!(completion_id_at(Some(0xBEEF)), "cmpl-beef");
    assert_eq!(completion_id_at(None), "cmpl-0");
    let id = completion_id();
    assert!(id.starts_with("cmpl-") && id.len() > 10);
    assert!(id[5..].chars().all(|c| c.is_ascii_hexdigit()));
}
