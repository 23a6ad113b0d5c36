//! The endpoints of the server: from a request to what is to be done, and from a
//! result to its answer.
//!
//! Answers are compact JSON in the shape of the OpenAI API. A malformed request is
//! answered with status 400, an unknown endpoint with 404.

use std::sync::Arc;

use vstd::prelude::*;
use vstd::utf8::*;

use crate::chat::ChatTemplate;
use crate::config::{FileConfig, GenerateDefaults};
use crate::decimal::{f64_to_u64, narrow};
use crate::fixed::push_two_decimals;
use crate::generate::{GenerateParams, Generated, ParamsView};
use crate::gguf::GgufFile;
use crate::http::{respond_json, Request};
use crate::json::{parse, write_escaped, Json, JsonView};
use crate::qwen2::Model;
use crate::sampling::clock_nanos;
use crate::shortest::push_f32;
use crate::text::{
    chars_of, find_char, push_decimal, push_numeral, same_text, string_from_utf8, string_of,
};
use crate::tokenizer::Tokenizer;

verus! {

broadcast use vstd::string::group_string_axioms;

// ── the model being served ──

/// A loaded model with everything that belongs to it. It is replaced as a whole, so
/// that a request finishes with the model that it began with.
pub struct Inner {
    pub model: Model,
    pub tok: Tokenizer,
    pub model_name: String,
    /// Chat template of the model.
    pub chat: ChatTemplate,
}

/// A model in service, with the network that runs it.
pub struct Served<N> {
    pub inner: Inner,
    pub network: N,
}

impl Inner {
    /// The tokenizer is usable.
    pub open spec fn wf(&self) -> bool {
        self.tok.wf()
    }

    /// Loads a model from the content of its file.
    pub fn load(buf: &[u8], model_name: &str, template_over: Option<&str>) -> (r: Result<
        Self,
        String,
    >)
        ensures
            match crate::gguf::file_at(buf@) {
                Err(e) => r matches Err(m) && m@ == "tokenizer: GGUF: "@ + e.text(),
                Ok(f) => match crate::tokenizer::tokenizer_of(f) {
                    Err(e) => r matches Err(m) && exists|t: Seq<char>| #[trigger]
                        e.says(t) && m@ == "tokenizer: "@ + t,
                    Ok(t) => match crate::qwen2::load_complaint(buf@) {
                        Some(e) => r matches Err(m) && m@ == "modello: "@ + e,
                        None => match crate::chat::chosen(
                            crate::chat::architecture(f),
                            crate::chat::string_in(f, "tokenizer.chat_template"@),
                            crate::chat::opt(template_over),
                        ) {
                            Err(e) => r matches Err(m) && m@ == e,
                            Ok((format, source)) => {
                                &&& r matches Ok(x)
                                &&& x.wf()
                                &&& x.tok@ == t
                                &&& crate::qwen2::is_model(f, buf@, x.model)
                                &&& x.model_name@ == model_name@
                                &&& x.chat.format == format
                                &&& x.chat.source@ == source
                            },
                        },
                    },
                },
            },
    {
        let tok = match Tokenizer::from_gguf(buf) {
            Ok(t) => t,
            Err(e) => {
                let text = e.message();
                let mut msg = "tokenizer: ".to_owned();
                msg.push_str(text.as_str());
                proof {
                    reveal_strlit("tokenizer: GGUF: ");
                    reveal_strlit("tokenizer: ");
                    reveal_strlit("GGUF: ");
                    assert(e@.says(text@));
                    if let Err(g) = crate::gguf::file_at(buf@) {
                        assert(msg@ =~= "tokenizer: GGUF: "@ + g.text());
                    }
                }
                return Err(msg);
            },
        };
        let model = match Model::load(buf) {
            Ok(m) => m,
            Err(e) => {
                let mut msg = "modello: ".to_owned();
                msg.push_str(e.as_str());
                return Err(msg);
            },
        };
        let gguf = match GgufFile::open(buf) {
            Ok(g) => g,
            Err(e) => {
                return Err(e.message());
            },
        };
        let chat = ChatTemplate::of_model(&gguf, template_over)?;
        Ok(Inner { model, tok, model_name: model_name.to_owned(), chat })
    }
}

// ── answers ──

/// An answer.
#[derive(Debug, Clone, PartialEq, Eq)]
pub struct Reply {
    pub status: u16,
    pub body: String,
}

/// The phrase of a status.
pub open spec fn reason_of(status: u16) -> Seq<char> {
    if status == 200 {
        "OK"@
    } else if status == 400 {
        "Bad Request"@
    } else if status == 404 {
        "Not Found"@
    } else if status == 500 {
        "Internal Server Error"@
    } else {
        "?"@
    }
}

/// The body of an error.
pub open spec fn error_body(msg: Seq<char>) -> Seq<char> {
    "{\"error\":"@ + crate::json::escaped(msg) + "}"@
}

/// `r` refuses a request for the given reason.
pub open spec fn refuses(r: Reply, msg: Seq<char>) -> bool {
    r.status == 400 && r.body@ == error_body(msg)
}

impl Reply {
    /// The answer as it is sent.
    pub fn respond(&self) -> (r: String)
        ensures
            r@ == crate::http::head(
                self.status,
                reason_of(self.status),
                encode_utf8(self.body@).len(),
            ) + self.body@,
    {
        let reason = match self.status {
            200 => "OK",
            400 => "Bad Request",
            404 => "Not Found",
            500 => "Internal Server Error",
            _ => "?",
        };
        respond_json(self.status, reason, self.body.as_str())
    }
}

/// An error, with its message.
pub fn error(status: u16, msg: &str) -> (r: Reply)
    ensures
        r.status == status,
        r.body@ == error_body(msg@),
{
    let mut body = "{\"error\":".to_owned();
    write_escaped(&mut body, msg);
    body.push_str("}");
    Reply { status, body }
}

// ── health ──

/// The body that tells which model is served.
pub open spec fn health_body(
    name: Seq<char>,
    layers: nat,
    embd: nat,
    chat: Seq<char>,
    source: Seq<char>,
) -> Seq<char> {
    "{\"status\":\"ok\",\"model\":"@ + crate::json::escaped(name) + ",\"layers\":"@
        + crate::text::decimal(layers) + ",\"embd\":"@ + crate::text::decimal(embd)
        + ",\"chat\":\""@ + chat + "\",\"tpl_from\":\""@ + source + "\"}"@
}

/// Tells which model is served.
pub fn health(inner: &Inner) -> (r: Reply)
    ensures
        r.status == 200,
        r.body@ == health_body(
            inner.model_name@,
            inner.model.config.n_layers as nat,
            inner.model.config.n_embd as nat,
            inner.chat.format.label(),
            inner.chat.source@,
        ),
{
    let mut body = "{\"status\":\"ok\",\"model\":".to_owned();
    write_escaped(&mut body, inner.model_name.as_str());
    body.push_str(",\"layers\":");
    push_decimal(&mut body, inner.model.config.n_layers as u64);
    body.push_str(",\"embd\":");
    push_decimal(&mut body, inner.model.config.n_embd as u64);
    body.push_str(",\"chat\":\"");
    body.push_str(inner.chat.format.name());
    body.push_str("\",\"tpl_from\":\"");
    body.push_str(inner.chat.source);
    body.push_str("\"}");
    Reply { status: 200, body }
}

// ── configuration ──

/// An f32, or null.
pub open spec fn float_or_null(v: Option<u32>) -> Seq<char> {
    match v {
        Some(x) => crate::shortest::display_f32(x),
        None => "null"@,
    }
}

/// A size, or null.
pub open spec fn size_or_null(v: Option<usize>) -> Seq<char> {
    match v {
        Some(n) => crate::text::decimal(n as nat),
        None => "null"@,
    }
}

/// The number of tokens to generate when nothing else is said.
pub open spec fn tokens_or_default(v: Option<usize>) -> usize {
    match v {
        Some(n) => n,
        None => 256,
    }
}

/// The temperature when nothing else is said.
pub open spec fn temperature_or_default(v: Option<u32>) -> u32 {
    match v {
        Some(t) => t,
        None => 0,
    }
}

/// The body that tells the configuration in force.
pub open spec fn config_body(host: Seq<char>, port: u16, g: GenerateDefaults) -> Seq<char> {
    "{\"server\":{\"host\":"@ + crate::json::escaped(host) + ",\"port\":"@ + crate::text::decimal(
        port as nat,
    ) + "},\"generate\":{\"temperature\":"@ + crate::shortest::display_f32(
        temperature_or_default(g.temperature),
    ) + ",\"top_p\":"@ + float_or_null(g.top_p) + ",\"top_k\":"@ + size_or_null(g.top_k)
        + ",\"max_tokens\":"@ + crate::text::decimal(tokens_or_default(g.max_tokens) as nat) + "}}"@
}

/// Tells the configuration in force.
pub fn get_config(host: &str, port: u16, g: &GenerateDefaults) -> (r: Reply)
    ensures
        r.status == 200,
        r.body@ == config_body(host@, port, *g),
{
    let mut body = "{\"server\":{\"host\":".to_owned();
    write_escaped(&mut body, host);
    body.push_str(",\"port\":");
    push_decimal(&mut body, port as u64);
    body.push_str("},\"generate\":{\"temperature\":");
    push_f32(
        &mut body,
        match g.temperature {
            Some(t) => t,
            None => 0,
        },
    );
    body.push_str(",\"top_p\":");
    match g.top_p {
        Some(v) => push_f32(&mut body, v),
        None => body.push_str("null"),
    }
    body.push_str(",\"top_k\":");
    match g.top_k {
        Some(v) => push_decimal(&mut body, v as u64),
        None => body.push_str("null"),
    }
    body.push_str(",\"max_tokens\":");
    push_decimal(
        &mut body,
        (match g.max_tokens {
            Some(n) => n,
            None => 256,
        }) as u64,
    );
    body.push_str("}}");
    Reply { status: 200, body }
}

/// The text of a body.
pub open spec fn text_of_body(body: Seq<u8>) -> Result<Seq<char>, Seq<char>> {
    if valid_utf8(body) {
        Ok(decode_utf8(body))
    } else {
        Err("body non è UTF-8"@)
    }
}

fn body_text(body: &[u8]) -> (r: Result<String, String>)
    ensures
        match text_of_body(body@) {
            Ok(t) => r matches Ok(s) && s@ == t,
            Err(e) => r matches Err(m) && m@ == e,
        },
{
    let mut bytes: Vec<u8> = Vec::new();
    bytes.extend_from_slice(body);
    assert(bytes@ =~= body@);
    match string_from_utf8(bytes) {
        Some(s) => Ok(s),
        None => Err("body non è UTF-8".to_owned()),
    }
}

/// The change of defaults that a body asks for, at the root or under "generate".
pub open spec fn patch_of(body: Seq<u8>) -> Result<GenerateDefaults, Seq<char>> {
    match text_of_body(body) {
        Err(e) => Err(e),
        Ok(text) => match crate::json::parsed(encode_utf8(text)) {
            Err(e) => Err("JSON non valido: "@ + e),
            Ok(j) => if j.get("generate"@) is Some {
                match crate::config::config_in(j) {
                    Ok(c) => Ok(c.generate),
                    Err(e) => Err(e),
                }
            } else {
                GenerateDefaults::stated_in(j)
            },
        },
    }
}

/// The defaults after the change that a body asks for.
pub fn patch_config(current: &GenerateDefaults, body: &[u8]) -> (r: Result<GenerateDefaults, Reply>)
    ensures
        match patch_of(body@) {
            Ok(patch) => r == Ok::<GenerateDefaults, Reply>(current.under(patch)),
            Err(e) => r matches Err(x) && refuses(x, e),
        },
{
    let text = match body_text(body) {
        Ok(t) => t,
        Err(e) => {
            return Err(error(400, e.as_str()));
        },
    };
    let patch = match parse(text.as_str()) {
        Err(e) => {
            let mut msg = "JSON non valido: ".to_owned();
            msg.push_str(e.as_str());
            Err(msg)
        },
        Ok(j) => if j.get("generate").is_some() {
            match FileConfig::from_json(&j) {
                Ok(c) => Ok(c.generate),
                Err(e) => Err(e),
            }
        } else {
            GenerateDefaults::from_json(&j)
        },
    };
    match patch {
        Ok(p) => Ok(current.merge(&p)),
        Err(e) => Err(error(400, e.as_str())),
    }
}

// ── requests ──

/// The JSON value of a body.
pub open spec fn body_value(body: Seq<u8>) -> Result<JsonView, Seq<char>> {
    match text_of_body(body) {
        Err(e) => Err(e),
        Ok(text) => crate::json::parsed(encode_utf8(text)),
    }
}

/// The JSON value of a body.
pub fn parse_body(body: &[u8]) -> (r: Result<Json, String>)
    ensures
        match body_value(body@) {
            Ok(v) => r matches Ok(j) && j@ == v,
            Err(e) => r matches Err(m) && m@ == e,
        },
{
    let text = body_text(body)?;
    parse(text.as_str())
}

/// The temperature of a request.
pub open spec fn request_temperature(base: GenerateDefaults, j: JsonView) -> Result<
    u32,
    Seq<char>,
> {
    match j.get("temperature"@) {
        None => Ok(temperature_or_default(base.temperature)),
        Some(v) => match crate::config::single(v) {
            Some(t) => Ok(t),
            None => Err("temperature non numerica"@),
        },
    }
}

/// The nucleus mass of a request.
pub open spec fn request_top_p(base: GenerateDefaults, j: JsonView) -> Result<
    Option<u32>,
    Seq<char>,
> {
    match j.get("top_p"@) {
        None => Ok(base.top_p),
        Some(v) => match crate::config::single(v) {
            Some(t) => Ok(Some(t)),
            None => Err("top_p non numerico"@),
        },
    }
}

/// The number of candidates of a request.
pub open spec fn request_top_k(base: GenerateDefaults, j: JsonView) -> Result<
    Option<usize>,
    Seq<char>,
> {
    match j.get("top_k"@) {
        None => Ok(base.top_k),
        Some(v) => match crate::config::size(v) {
            Some(n) => Ok(Some(n)),
            None => Err("top_k non intero"@),
        },
    }
}

/// The number of tokens of a request.
pub open spec fn request_max_tokens(base: GenerateDefaults, j: JsonView) -> Result<
    usize,
    Seq<char>,
> {
    match j.get("max_tokens"@) {
        None => Ok(tokens_or_default(base.max_tokens)),
        Some(v) => match crate::config::size(v) {
            Some(n) => Ok(n),
            None => Err("max_tokens non intero"@),
        },
    }
}

/// The seed of a request.
pub open spec fn request_seed(j: JsonView) -> Result<Option<u64>, Seq<char>> {
    match j.get("seed"@) {
        None => Ok(None),
        Some(JsonView::Num(n)) => Ok(
            Some(crate::decimal::clamped(n, u64::MAX as nat) as u64),
        ),
        Some(_) => Err("seed non numerico"@),
    }
}

/// The stop strings of a request: one string, or an array of strings.
pub open spec fn request_stop(j: JsonView) -> Result<Seq<Seq<char>>, Seq<char>> {
    match j.get("stop"@) {
        None => Ok(Seq::empty()),
        Some(JsonView::Str(s)) => Ok(seq![s]),
        Some(JsonView::Arr(items)) => if forall|i: int|
            0 <= i < items.len() ==> (#[trigger] items[i]) is Str {
            Ok(Seq::new(items.len(), |i: int| items[i]->Str_0))
        } else {
            Err("stop: elementi non stringa"@)
        },
        Some(_) => Err("stop deve essere stringa o array di stringhe"@),
    }
}

/// The parameters of a request: its own, and the defaults for what it leaves out.
/// The first bad parameter is reported.
pub open spec fn request_params(base: GenerateDefaults, j: JsonView) -> Result<
    ParamsView,
    Seq<char>,
> {
    match request_temperature(base, j) {
        Err(e) => Err(e),
        Ok(temperature) => match request_top_p(base, j) {
            Err(e) => Err(e),
            Ok(top_p) => match request_top_k(base, j) {
                Err(e) => Err(e),
                Ok(top_k) => match request_max_tokens(base, j) {
                    Err(e) => Err(e),
                    Ok(max_tokens) => match request_seed(j) {
                        Err(e) => Err(e),
                        Ok(seed) => match request_stop(j) {
                            Err(e) => Err(e),
                            Ok(stop) => Ok(
                                ParamsView {
                                    max_tokens,
                                    temperature,
                                    top_k,
                                    top_p,
                                    seed,
                                    stop,
                                    extra_eos: Seq::empty(),
                                },
                            ),
                        },
                    },
                },
            },
        },
    }
}

fn stop_strings(j: &Json) -> (r: Result<Vec<String>, String>)
    ensures
        match request_stop(j@) {
            Ok(v) => r matches Ok(x) && crate::pre::texts(x@) == v,
            Err(e) => r matches Err(m) && m@ == e,
        },
{
    let mut out: Vec<String> = Vec::new();
    let v = match j.get("stop") {
        None => {
            assert(crate::pre::texts(out@) =~= Seq::empty());
            return Ok(out);
        },
        Some(v) => v,
    };
    if let Some(s) = v.as_str() {
        out.push(s.to_owned());
        assert(crate::pre::texts(out@) =~= seq![s@]);
        return Ok(out);
    }
    let items = match v.as_arr() {
        None => {
            return Err("stop deve essere stringa o array di stringhe".to_owned());
        },
        Some(items) => items,
    };
    let ghost all = crate::json::views(items@);
    let mut i: usize = 0;
    while i < items.len()
        invariant
            all == crate::json::views(items@),
            j@.get("stop"@) == Some(JsonView::Arr(all)),
            i <= items@.len(),
            out@.len() == i,
            forall|k: int|
                0 <= k < i ==> (#[trigger] all[k]) is Str && out@[k]@ == all[k]->Str_0,
        decreases items@.len() - i,
    {
        assert(all[i as int] == items@[i as int]@);
        match items[i].as_str() {
            Some(s) => out.push(s.to_owned()),
            None => {
                return Err("stop: elementi non stringa".to_owned());
            },
        }
        i += 1;
    }
    assert(crate::pre::texts(out@) =~= Seq::new(all.len(), |i: int| all[i]->Str_0));
    Ok(out)
}

/// The parameters of a request.
pub fn params_from_json(base: &GenerateDefaults, j: &Json) -> (r: Result<GenerateParams, String>)
    ensures
        match request_params(*base, j@) {
            Ok(p) => r matches Ok(x) && x@ == p,
            Err(e) => r matches Err(m) && m@ == e,
        },
{
    let temperature: u32 = match j.get("temperature") {
        None => match base.temperature {
            Some(t) => t,
            None => 0,
        },
        Some(v) => match v.as_f64() {
            Some(n) => narrow(n),
            None => {
                return Err("temperature non numerica".to_owned());
            },
        },
    };
    let top_p = match j.get("top_p") {
        None => base.top_p,
        Some(v) => match v.as_f64() {
            Some(n) => Some(narrow(n)),
            None => {
                return Err("top_p non numerico".to_owned());
            },
        },
    };
    let top_k = match j.get("top_k") {
        None => base.top_k,
        Some(v) => match v.as_usize() {
            Some(n) => Some(n),
            None => {
                return Err("top_k non intero".to_owned());
            },
        },
    };
    let max_tokens: usize = match j.get("max_tokens") {
        None => match base.max_tokens {
            Some(n) => n,
            None => 256,
        },
        Some(v) => match v.as_usize() {
            Some(n) => n,
            None => {
                return Err("max_tokens non intero".to_owned());
            },
        },
    };
    let seed = match j.get("seed") {
        None => None,
        Some(v) => match v.as_f64() {
            Some(n) => Some(f64_to_u64(n)),
            None => {
                return Err("seed non numerico".to_owned());
            },
        },
    };
    let stop = stop_strings(j)?;
    let extra_eos: Vec<u32> = Vec::new();
    assert(extra_eos@ =~= Seq::empty());
    Ok(GenerateParams { max_tokens, temperature, top_k, top_p, seed, stop, extra_eos })
}

/// What is to be generated.
#[derive(Debug, Clone, PartialEq, Eq)]
pub struct Job {
    /// The tokens of the prompt.
    pub ids: Vec<u32>,
    pub params: GenerateParams,
}

/// The outcome of turning a prompt into a job.
pub open spec fn is_job(
    t: crate::tokenizer::TokenizerView,
    prompt: Seq<char>,
    params: ParamsView,
    r: Result<Job, Reply>,
) -> bool {
    match crate::tokenizer::encoded_with_bos(t, prompt) {
        Ok(ids) => r matches Ok(job) && job.ids@ == ids && job.params@ == params,
        Err(e) => r matches Err(x) && exists|m: Seq<char>| #[trigger] e.says(m) && refuses(x, m),
    }
}

fn job(tok: &Tokenizer, prompt: &str, params: GenerateParams) -> (r: Result<Job, Reply>)
    requires
        tok.wf(),
    ensures
        is_job(tok@, prompt@, params@, r),
{
    match tok.encode_with_specials(prompt) {
        Ok(ids) => Ok(Job { ids, params }),
        Err(e) => {
            let msg = e.message();
            assert(e@.says(msg@));
            Err(error(400, msg.as_str()))
        },
    }
}

/// The prompt of a completion.
pub open spec fn prompt_in(j: JsonView) -> Result<Seq<char>, Seq<char>> {
    match j.get("prompt"@) {
        Some(JsonView::Str(s)) => Ok(s),
        _ => Err("campo 'prompt' mancante o non stringa"@),
    }
}

/// The outcome of a request for a completion.
pub open spec fn is_completion(
    t: crate::tokenizer::TokenizerView,
    base: GenerateDefaults,
    body: Seq<u8>,
    r: Result<Job, Reply>,
) -> bool {
    match body_value(body) {
        Err(e) => r matches Err(x) && refuses(x, e),
        Ok(j) => match prompt_in(j) {
            Err(e) => r matches Err(x) && refuses(x, e),
            Ok(prompt) => match request_params(base, j) {
                Err(e) => r matches Err(x) && refuses(x, e),
                Ok(params) => is_job(t, prompt, params, r),
            },
        },
    }
}

/// Turns a request for a completion into a job.
pub fn completions(tok: &Tokenizer, base: &GenerateDefaults, body: &[u8]) -> (r: Result<Job, Reply>)
    requires
        tok.wf(),
    ensures
        is_completion(tok@, *base, body@, r),
{
    let j = match parse_body(body) {
        Ok(j) => j,
        Err(e) => {
            return Err(error(400, e.as_str()));
        },
    };
    let prompt: Option<&str> = match j.get("prompt") {
        Some(v) => v.as_str(),
        None => None,
    };
    let prompt = match prompt {
        Some(p) => p,
        None => {
            return Err(error(400, "campo 'prompt' mancante o non stringa"));
        },
    };
    match params_from_json(base, &j) {
        Err(e) => Err(error(400, e.as_str())),
        Ok(params) => job(tok, prompt, params),
    }
}

/// A string of a message; empty where there is none.
pub open spec fn part_of(m: JsonView, key: Seq<char>) -> Seq<char> {
    match m.get(key) {
        Some(JsonView::Str(s)) => s,
        _ => Seq::empty(),
    }
}

/// Role and content of messages.
pub open spec fn messages_of(items: Seq<JsonView>) -> Seq<crate::chat::Message> {
    Seq::new(items.len(), |i: int| (part_of(items[i], "role"@), part_of(items[i], "content"@)))
}

/// The messages of a conversation; each has a role and a content.
pub open spec fn messages_in(j: JsonView) -> Result<Seq<crate::chat::Message>, Seq<char>> {
    match j.get("messages"@) {
        Some(JsonView::Arr(items)) if items.len() > 0 => if forall|i: int|
            0 <= i < items.len() ==> part_of(#[trigger] items[i], "role"@).len() > 0 && part_of(
                items[i],
                "content"@,
            ).len() > 0 {
            Ok(messages_of(items))
        } else {
            Err("message senza 'role' o 'content' stringa"@)
        },
        _ => Err("campo 'messages' mancante o vuoto"@),
    }
}

/// The ids of those tokens that the vocabulary has.
pub open spec fn known_ids(t: crate::tokenizer::TokenizerView, tokens: Seq<Seq<char>>) -> Seq<u32>
    decreases tokens.len(),
{
    if tokens.len() == 0 {
        Seq::empty()
    } else {
        let ids = crate::tokenizer::ids_of(t.vocab);
        let before = known_ids(t, tokens.drop_last());
        if ids.contains_key(tokens.last()) {
            before.push(ids[tokens.last()])
        } else {
            before
        }
    }
}

/// The outcome of a request of a chat: the prompt is rendered by the template, and the
/// tokens that close a turn end the generation.
pub open spec fn is_chat(
    t: crate::tokenizer::TokenizerView,
    format: crate::chat::Format,
    base: GenerateDefaults,
    body: Seq<u8>,
    r: Result<Job, Reply>,
) -> bool {
    match body_value(body) {
        Err(e) => r matches Err(x) && refuses(x, e),
        Ok(j) => match messages_in(j) {
            Err(e) => r matches Err(x) && refuses(x, e),
            Ok(messages) => match request_params(base, j) {
                Err(e) => r matches Err(x) && refuses(x, e),
                Ok(params) => is_job(
                    t,
                    crate::chat::rendered(format, messages),
                    ParamsView { extra_eos: known_ids(t, format.closers()), ..params },
                    r,
                ),
            },
        },
    }
}

fn part<'a>(m: &'a Json, key: &str) -> (r: &'a str)
    ensures
        r@ == part_of(m@, key@),
{
    proof {
        reveal_strlit("");
        assert(""@ =~= Seq::<char>::empty());
    }
    match m.get(key) {
        Some(v) => match v.as_str() {
            Some(s) => s,
            None => "",
        },
        None => "",
    }
}

fn is_empty(s: &str) -> (r: bool)
    ensures
        r == (s@.len() == 0),
{
    chars_of(s).len() == 0
}

fn messages<'a>(j: &'a Json) -> (r: Result<Vec<(&'a str, &'a str)>, &'static str>)
    ensures
        match messages_in(j@) {
            Ok(v) => r matches Ok(x) && crate::chat::message_views(x@) == v,
            Err(e) => r matches Err(m) && m@ == e,
        },
{
    let found: Option<&[Json]> = match j.get("messages") {
        Some(v) => v.as_arr(),
        None => None,
    };
    let items = match found {
        Some(items) => items,
        None => {
            return Err("campo 'messages' mancante o vuoto");
        },
    };
    if items.len() == 0 {
        return Err("campo 'messages' mancante o vuoto");
    }
    let ghost all = crate::json::views(items@);
    let mut out: Vec<(&str, &str)> = Vec::new();
    let mut i: usize = 0;
    while i < items.len()
        invariant
            all == crate::json::views(items@),
            all.len() > 0,
            j@.get("messages"@) == Some(JsonView::Arr(all)),
            i <= items@.len(),
            out@.len() == i,
            forall|k: int|
                0 <= k < i ==> part_of(#[trigger] all[k], "role"@).len() > 0 && part_of(
                    all[k],
                    "content"@,
                ).len() > 0 && out@[k].0@ == part_of(all[k], "role"@) && out@[k].1@ == part_of(
                    all[k],
                    "content"@,
                ),
        decreases items@.len() - i,
    {
        assert(all[i as int] == items@[i as int]@);
        let role = part(&items[i], "role");
        let content = part(&items[i], "content");
        if is_empty(role) || is_empty(content) {
            return Err("message senza 'role' o 'content' stringa");
        }
        out.push((role, content));
        i += 1;
    }
    assert(crate::chat::message_views(out@) =~= messages_of(all));
    Ok(out)
}

fn closing_ids(tok: &Tokenizer, tokens: &Vec<&'static str>) -> (r: Vec<u32>)
    requires
        tok.wf(),
    ensures
        r@ == known_ids(tok@, Seq::new(tokens@.len(), |i: int| tokens@[i]@)),
{
    let ghost all = Seq::new(tokens@.len(), |i: int| tokens@[i]@);
    let mut out: Vec<u32> = Vec::new();
    let mut i: usize = 0;
    while i < tokens.len()
        invariant
            tok.wf(),
            all == Seq::new(tokens@.len(), |i: int| tokens@[i]@),
            i <= tokens@.len(),
            out@ == known_ids(tok@, all.take(i as int)),
        decreases tokens@.len() - i,
    {
        assert(all.take(i + 1).drop_last() =~= all.take(i as int));
        assert(all.take(i + 1).last() == tokens@[i as int]@);
        if let Some(id) = tok.token_to_id(tokens[i]) {
            out.push(id);
        }
        i += 1;
    }
    assert(all.take(i as int) =~= all);
    out
}

/// Turns a request of a chat into a job.
pub fn chat_completions(
    tok: &Tokenizer,
    chat: &ChatTemplate,
    base: &GenerateDefaults,
    body: &[u8],
) -> (r: Result<Job, Reply>)
    requires
        tok.wf(),
    ensures
        is_chat(tok@, chat.format, *base, body@, r),
{
    let j = match parse_body(body) {
        Ok(j) => j,
        Err(e) => {
            return Err(error(400, e.as_str()));
        },
    };
    let turns = match messages(&j) {
        Ok(v) => v,
        Err(e) => {
            return Err(error(400, e));
        },
    };
    let prompt = chat.render(turns.as_slice());
    let mut params = match params_from_json(base, &j) {
        Ok(p) => p,
        Err(e) => {
            return Err(error(400, e.as_str()));
        },
    };
    let closers = chat.format.stop_tokens();
    assert(Seq::new(closers@.len(), |i: int| closers@[i]@) =~= chat.format.closers());
    params.extra_eos = closing_ids(tok, &closers);
    job(tok, prompt.as_str(), params)
}

// ── replacing the model ──

/// The path that a body names.
pub open spec fn path_in(j: JsonView) -> Result<Seq<char>, Seq<char>> {
    match j.get("path"@) {
        Some(JsonView::Str(s)) if s.len() > 0 => Ok(s),
        _ => Err("campo 'path' mancante o vuoto"@),
    }
}

/// The path of the model that a request asks for.
pub open spec fn asked_path(body: Seq<u8>) -> Result<Seq<char>, Seq<char>> {
    match body_value(body) {
        Err(e) => Err(e),
        Ok(j) => path_in(j),
    }
}

/// The path of the model that a request asks for.
pub fn load_model(body: &[u8]) -> (r: Result<String, Reply>)
    ensures
        match asked_path(body@) {
            Ok(p) => r matches Ok(x) && x@ == p,
            Err(e) => r matches Err(x) && refuses(x, e),
        },
{
    let j = match parse_body(body) {
        Ok(j) => j,
        Err(e) => {
            return Err(error(400, e.as_str()));
        },
    };
    let path: Option<&str> = match j.get("path") {
        Some(v) => v.as_str(),
        None => None,
    };
    match path {
        Some(p) => if is_empty(p) {
            Err(error(400, "campo 'path' mancante o vuoto"))
        } else {
            Ok(p.to_owned())
        },
        None => Err(error(400, "campo 'path' mancante o vuoto")),
    }
}

/// Refuses a model whose file is not there.
pub fn model_not_found(path: &str) -> (r: Reply)
    ensures
        refuses(r, "file non trovato: "@ + path@),
{
    let mut msg = "file non trovato: ".to_owned();
    msg.push_str(path);
    error(400, msg.as_str())
}

/// Refuses a model that could not be loaded.
fn model_not_loaded(reason: &str) -> (r: Reply)
    ensures
        refuses(
            r,
            "caricamento fallito ("@ + reason@ + "): il modello precedente resta attivo"@,
        ),
{
    let mut msg = "caricamento fallito (".to_owned();
    msg.push_str(reason);
    msg.push_str("): il modello precedente resta attivo");
    error(400, msg.as_str())
}

/// The body that confirms a model.
pub open spec fn model_body(name: Seq<char>) -> Seq<char> {
    "{\"status\":\"ok\",\"model\":"@ + crate::json::escaped(name) + "}"@
}

/// Confirms that a model was loaded.
fn model_loaded(name: &str) -> (r: Reply)
    ensures
        r.status == 200,
        r.body@ == model_body(name@),
{
    let mut body = "{\"status\":\"ok\",\"model\":".to_owned();
    write_escaped(&mut body, name);
    body.push_str("}");
    Reply { status: 200, body }
}

/// Puts a newly loaded model in place of the present one and confirms it; where
/// loading failed the present one stays.
pub fn replace_model<N>(current: Arc<Served<N>>, loaded: Result<Arc<Served<N>>, String>) -> (r: (
    Arc<Served<N>>,
    Reply,
))
    ensures
        match loaded {
            Ok(new) => r.0 == new && r.1.status == 200 && r.1.body@ == model_body(
                new.inner.model_name@,
            ),
            Err(e) => r.0 == current && refuses(
                r.1,
                "caricamento fallito ("@ + e@ + "): il modello precedente resta attivo"@,
            ),
        },
{
    match loaded {
        Ok(new) => {
            let reply = model_loaded(new.inner.model_name.as_str());
            (new, reply)
        },
        Err(e) => {
            let reply = model_not_loaded(e.as_str());
            (current, reply)
        },
    }
}

// ── routing ──

/// The endpoints.
#[derive(Debug, Clone, Copy, PartialEq, Eq)]
pub enum Route {
    Health,
    GetConfig,
    PatchConfig,
    LoadModel,
    Chat,
    Completion,
    Unknown,
}

/// The path up to its query.
pub open spec fn without_query(path: Seq<char>) -> Seq<char> {
    path.take(crate::text::position(path, '?'))
}

/// The endpoint of a method and a path.
pub open spec fn route_of(method: Seq<char>, path: Seq<char>) -> Route {
    let p = without_query(path);
    if method == "GET"@ && p == "/health"@ {
        Route::Health
    } else if method == "GET"@ && p == "/v1/config"@ {
        Route::GetConfig
    } else if method == "POST"@ && p == "/v1/config"@ {
        Route::PatchConfig
    } else if method == "POST"@ && p == "/v1/model"@ {
        Route::LoadModel
    } else if method == "POST"@ && p == "/v1/chat/completions"@ {
        Route::Chat
    } else if method == "POST"@ && p == "/v1/completions"@ {
        Route::Completion
    } else {
        Route::Unknown
    }
}

/// The endpoint of a method and a path.
pub fn route(method: &str, path: &str) -> (r: Route)
    ensures
        r == route_of(method@, path@),
{
    let chars = chars_of(path);
    let end = find_char(chars.as_slice(), '?');
    let head = vstd::slice::slice_subrange(chars.as_slice(), 0, end);
    assert(head@ =~= without_query(path@));
    let p = string_of(head);
    let get = same_text(method, "GET");
    let post = same_text(method, "POST");
    if get && same_text(p.as_str(), "/health") {
        Route::Health
    } else if get && same_text(p.as_str(), "/v1/config") {
        Route::GetConfig
    } else if post && same_text(p.as_str(), "/v1/config") {
        Route::PatchConfig
    } else if post && same_text(p.as_str(), "/v1/model") {
        Route::LoadModel
    } else if post && same_text(p.as_str(), "/v1/chat/completions") {
        Route::Chat
    } else if post && same_text(p.as_str(), "/v1/completions") {
        Route::Completion
    } else {
        Route::Unknown
    }
}

/// What a request asks the server to do.
#[derive(Debug, Clone, PartialEq, Eq)]
pub enum Action {
    /// Send an answer.
    Answer(Reply),
    /// Take these defaults from now on, and tell the configuration.
    Configure(GenerateDefaults),
    /// Load the model at this path in place of the present one.
    Load(String),
    /// Generate, and answer a completion.
    Complete(Job),
    /// Generate, and answer a chat.
    Chat(Job),
}

/// `a` is what a request asks for.
pub open spec fn is_action(
    inner: Inner,
    defaults: GenerateDefaults,
    host: Seq<char>,
    port: u16,
    req: Request,
    a: Action,
) -> bool {
    match route_of(req.method@, req.path@) {
        Route::Health => a matches Action::Answer(x) && x.status == 200 && x.body@ == health_body(
            inner.model_name@,
            inner.model.config.n_layers as nat,
            inner.model.config.n_embd as nat,
            inner.chat.format.label(),
            inner.chat.source@,
        ),
        Route::GetConfig => a matches Action::Answer(x) && x.status == 200 && x.body@
            == config_body(host, port, defaults),
        Route::PatchConfig => match patch_of(req.body@) {
            Ok(patch) => a == Action::Configure(defaults.under(patch)),
            Err(e) => a matches Action::Answer(x) && refuses(x, e),
        },
        Route::LoadModel => match asked_path(req.body@) {
            Ok(p) => a matches Action::Load(x) && x@ == p,
            Err(e) => a matches Action::Answer(x) && refuses(x, e),
        },
        Route::Chat => match a {
            Action::Chat(job) => is_chat(
                inner.tok@,
                inner.chat.format,
                defaults,
                req.body@,
                Ok(job),
            ),
            Action::Answer(x) => is_chat(
                inner.tok@,
                inner.chat.format,
                defaults,
                req.body@,
                Err(x),
            ),
            _ => false,
        },
        Route::Completion => match a {
            Action::Complete(job) => is_completion(inner.tok@, defaults, req.body@, Ok(job)),
            Action::Answer(x) => is_completion(inner.tok@, defaults, req.body@, Err(x)),
            _ => false,
        },
        Route::Unknown => a matches Action::Answer(x) && x.status == 404 && x.body@ == error_body(
            "endpoint sconosciuto: "@ + req.method@ + " "@ + req.path@,
        ),
    }
}

/// Decides what a request asks the server to do.
pub fn handle(
    inner: &Inner,
    defaults: &GenerateDefaults,
    host: &str,
    port: u16,
    req: &Request,
) -> (r: Action)
    requires
        inner.wf(),
    ensures
        is_action(*inner, *defaults, host@, port, *req, r),
{
    match route(req.method.as_str(), req.path.as_str()) {
        Route::Health => Action::Answer(health(inner)),
        Route::GetConfig => Action::Answer(get_config(host, port, defaults)),
        Route::PatchConfig => match patch_config(defaults, req.body.as_slice()) {
            Ok(g) => Action::Configure(g),
            Err(e) => Action::Answer(e),
        },
        Route::LoadModel => match load_model(req.body.as_slice()) {
            Ok(p) => Action::Load(p),
            Err(e) => Action::Answer(e),
        },
        Route::Chat => match chat_completions(
            &inner.tok,
            &inner.chat,
            defaults,
            req.body.as_slice(),
        ) {
            Ok(job) => Action::Chat(job),
            Err(e) => Action::Answer(e),
        },
        Route::Completion => match completions(&inner.tok, defaults, req.body.as_slice()) {
            Ok(job) => Action::Complete(job),
            Err(e) => Action::Answer(e),
        },
        Route::Unknown => {
            let mut msg = "endpoint sconosciuto: ".to_owned();
            msg.push_str(req.method.as_str());
            msg.push_str(" ");
            msg.push_str(req.path.as_str());
            Action::Answer(error(404, msg.as_str()))
        },
    }
}

// ── results ──

/// The members that tell how much was generated, and how fast.
pub open spec fn usage_text(prompt_tokens: nat, generated: nat, per_second: u32) -> Seq<char> {
    "\"usage\":{\"prompt_tokens\":"@ + crate::text::decimal(prompt_tokens)
        + ",\"completion_tokens\":"@ + crate::text::decimal(generated) + ",\"total_tokens\":"@
        + crate::text::decimal(prompt_tokens + generated) + "},\"tokens_per_second\":"@
        + crate::fixed::two_decimals(per_second)
}

fn push_usage(out: &mut String, made: &Generated)
    ensures
        final(out)@ == old(out)@ + usage_text(
            made.prompt_tokens as nat,
            made.ids@.len(),
            crate::generate::rate(made.ids@.len(), made.elapsed_secs) as u32,
        ),
{
    let ghost before = out@;
    let n = made.ids.len();
    let speed = made.tokens_per_sec();
    let mut text = "\"usage\":{\"prompt_tokens\":".to_owned();
    push_decimal(&mut text, made.prompt_tokens as u64);
    text.push_str(",\"completion_tokens\":");
    push_decimal(&mut text, n as u64);
    text.push_str(",\"total_tokens\":");
    push_numeral(&mut text, made.prompt_tokens as u128 + n as u128, 10);
    text.push_str("},\"tokens_per_second\":");
    push_two_decimals(&mut text, speed);
    out.push_str(text.as_str());
}

/// The name of an answer, made of a reading of the clock in nanoseconds.
pub open spec fn id_text(nanos: nat) -> Seq<char> {
    "cmpl-"@ + crate::text::numeral(nanos, 16)
}

/// The name of an answer, given a reading of the clock; without one it is zero.
pub fn completion_id_at(nanos: Option<u128>) -> (r: String)
    ensures
        r@ == id_text(
            match nanos {
                Some(n) => n as nat,
                None => 0,
            },
        ),
{
    let n: u128 = match nanos {
        Some(n) => n,
        None => 0,
    };
    let mut out = "cmpl-".to_owned();
    push_numeral(&mut out, n, 16);
    out
}

/// A name for an answer, after the present time.
pub fn completion_id() -> (r: String)
    ensures
        exists|n: nat| r@ == #[trigger] id_text(n),
{
    let nanos = clock_nanos();
    completion_id_at(nanos)
}

/// The body of a completion.
pub open spec fn completion_body(
    id: Seq<char>,
    text: Seq<char>,
    reason: Seq<char>,
    usage: Seq<char>,
) -> Seq<char> {
    "{\"id\":"@ + crate::json::escaped(id)
        + ",\"object\":\"text_completion\",\"choices\":[{\"text\":"@ + crate::json::escaped(text)
        + ",\"finish_reason\":"@ + crate::json::escaped(reason) + "}],"@ + usage + "}"@
}

/// The usage that a generation is answered with.
pub open spec fn usage_of(made: Generated) -> Seq<char> {
    usage_text(
        made.prompt_tokens as nat,
        made.ids@.len(),
        crate::generate::rate(made.ids@.len(), made.elapsed_secs) as u32,
    )
}

/// Answers a completion under the given name.
pub fn respond_json_completion(id: &str, made: &Generated) -> (r: Reply)
    ensures
        r.status == 200,
        r.body@ == completion_body(id@, made.text@, made.finish_reason@, usage_of(*made)),
{
    let mut body = "{\"id\":".to_owned();
    write_escaped(&mut body, id);
    body.push_str(",\"object\":\"text_completion\",\"choices\":[{\"text\":");
    write_escaped(&mut body, made.text.as_str());
    body.push_str(",\"finish_reason\":");
    write_escaped(&mut body, made.finish_reason);
    body.push_str("}],");
    push_usage(&mut body, made);
    body.push_str("}");
    Reply { status: 200, body }
}

/// The body of a chat answer.
pub open spec fn chat_body(
    id: Seq<char>,
    text: Seq<char>,
    reason: Seq<char>,
    usage: Seq<char>,
) -> Seq<char> {
    "{\"id\":"@ + crate::json::escaped(id)
        + ",\"object\":\"chat.completion\",\"choices\":[{\"index\":0,\"message\":{\"role\":\"assistant\",\"content\":"@
        + crate::json::escaped(text) + "},\"finish_reason\":"@ + crate::json::escaped(reason)
        + "}],"@ + usage + "}"@
}

/// Answers a chat under the given name.
pub fn respond_json_chat(id: &str, made: &Generated) -> (r: Reply)
    ensures
        r.status == 200,
        r.body@ == chat_body(id@, made.text@, made.finish_reason@, usage_of(*made)),
{
    let mut body = "{\"id\":".to_owned();
    write_escaped(&mut body, id);
    body.push_str(
        ",\"object\":\"chat.completion\",\"choices\":[{\"index\":0,\"message\":{\"role\":\"assistant\",\"content\":",
    );
    write_escaped(&mut body, made.text.as_str());
    body.push_str("},\"finish_reason\":");
    write_escaped(&mut body, made.finish_reason);
    body.push_str("}],");
    push_usage(&mut body, made);
    body.push_str("}");
    Reply { status: 200, body }
}

} // verus!
