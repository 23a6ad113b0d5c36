//! Layered configuration. Each layer states only what it wants to change; the
//! rest is inherited from the weaker layers.

use vstd::prelude::*;
use vstd::utf8::*;

use crate::decimal::narrow;
use crate::ieee::is_zero_to_two;
use crate::json::{parse, Json, JsonView};
use crate::shortest::push_f32;

verus! {

// ── generation defaults ──

/// Defaults of the generation parameters. With every field present these are the
/// server's current defaults; with some missing, a layer that changes only the
/// others. Floats are f32 patterns.
#[derive(Debug, Clone, Copy, PartialEq, Eq)]
pub struct GenerateDefaults {
    /// Zero means greedy.
    pub temperature: Option<u32>,
    pub top_p: Option<u32>,
    pub top_k: Option<usize>,
    pub max_tokens: Option<usize>,
}

impl Default for GenerateDefaults {
    /// The engine's own defaults: greedy, 256 tokens.
    fn default() -> (r: Self)
        ensures
            r == GenerateDefaults::factory(),
    {
        GenerateDefaults { temperature: Some(0), top_p: None, top_k: None, max_tokens: Some(256) }
    }
}

/// The stronger value where it is given, the weaker one otherwise.
pub open spec fn or<T>(stronger: Option<T>, weaker: Option<T>) -> Option<T> {
    match stronger {
        Some(v) => Some(v),
        None => weaker,
    }
}

/// The f32 of a JSON number.
pub open spec fn single(v: JsonView) -> Option<u32> {
    match v {
        JsonView::Num(n) => Some(crate::decimal::narrowed(n) as u32),
        _ => None,
    }
}

/// The size of a JSON number.
pub open spec fn size(v: JsonView) -> Option<usize> {
    match v {
        JsonView::Num(n) => Some(crate::decimal::clamped(n, usize::MAX as nat) as usize),
        _ => None,
    }
}

/// A member that is there and not null.
pub open spec fn present(j: JsonView, key: Seq<char>) -> Option<JsonView> {
    match j.get(key) {
        Some(JsonView::Null) => None,
        other => other,
    }
}

/// The temperature that a JSON object asks for.
pub open spec fn temperature_in(j: JsonView) -> Result<Option<u32>, Seq<char>> {
    match j.get("temperature"@) {
        None => Ok(None),
        Some(v) => match single(v) {
            None => Err("generate.temperature non numerica"@),
            Some(t) => if crate::ieee::zero_to_two(t) {
                Ok(Some(t))
            } else {
                Err(
                    "generate.temperature fuori range [0,2]: "@ + crate::shortest::display_f32(t),
                )
            },
        },
    }
}

/// The nucleus mass that a JSON object asks for; null leaves it alone.
pub open spec fn top_p_in(j: JsonView) -> Result<Option<u32>, Seq<char>> {
    match present(j, "top_p"@) {
        None => Ok(None),
        Some(v) => match single(v) {
            None => Err("generate.top_p non numerico"@),
            Some(t) => Ok(Some(t)),
        },
    }
}

/// The number of candidates that a JSON object asks for; null leaves it alone.
pub open spec fn top_k_in(j: JsonView) -> Result<Option<usize>, Seq<char>> {
    match present(j, "top_k"@) {
        None => Ok(None),
        Some(v) => match size(v) {
            None => Err("generate.top_k non intero"@),
            Some(n) => Ok(Some(n)),
        },
    }
}

/// The number of tokens that a JSON object asks for.
pub open spec fn max_tokens_in(j: JsonView) -> Result<Option<usize>, Seq<char>> {
    match j.get("max_tokens"@) {
        None => Ok(None),
        Some(v) => match size(v) {
            None => Err("generate.max_tokens non intero"@),
            Some(n) => Ok(Some(n)),
        },
    }
}

impl GenerateDefaults {
    /// The engine's own defaults.
    pub open spec fn factory() -> Self {
        GenerateDefaults {
            temperature: Some(0u32),
            top_p: None,
            top_k: None,
            max_tokens: Some(256usize),
        }
    }

    /// A layer that changes nothing.
    pub open spec fn nothing() -> Self {
        GenerateDefaults { temperature: None, top_p: None, top_k: None, max_tokens: None }
    }

    /// This layer under a stronger one.
    pub open spec fn under(self, stronger: Self) -> Self {
        GenerateDefaults {
            temperature: or(stronger.temperature, self.temperature),
            top_p: or(stronger.top_p, self.top_p),
            top_k: or(stronger.top_k, self.top_k),
            max_tokens: or(stronger.max_tokens, self.max_tokens),
        }
    }

    /// The layer that a JSON object states; the first bad parameter, in the order
    /// temperature, top_p, top_k, max_tokens, is reported.
    pub open spec fn stated_in(j: JsonView) -> Result<Self, Seq<char>> {
        match temperature_in(j) {
            Err(e) => Err(e),
            Ok(temperature) => match top_p_in(j) {
                Err(e) => Err(e),
                Ok(top_p) => match top_k_in(j) {
                    Err(e) => Err(e),
                    Ok(top_k) => match max_tokens_in(j) {
                        Err(e) => Err(e),
                        Ok(max_tokens) => Ok(
                            GenerateDefaults { temperature, top_p, top_k, max_tokens },
                        ),
                    },
                },
            },
        }
    }

    /// Puts a stronger layer over this one.
    pub fn merge(&self, stronger: &Self) -> (r: Self)
        ensures
            r == self.under(*stronger),
    {
        GenerateDefaults {
            temperature: match stronger.temperature {
                Some(v) => Some(v),
                None => self.temperature,
            },
            top_p: match stronger.top_p {
                Some(v) => Some(v),
                None => self.top_p,
            },
            top_k: match stronger.top_k {
                Some(v) => Some(v),
                None => self.top_k,
            },
            max_tokens: match stronger.max_tokens {
                Some(v) => Some(v),
                None => self.max_tokens,
            },
        }
    }

    /// The layer that a JSON object states.
    pub fn from_json(j: &Json) -> (r: Result<Self, String>)
        ensures
            match GenerateDefaults::stated_in(j@) {
                Ok(g) => r == Ok::<GenerateDefaults, String>(g),
                Err(e) => r matches Err(m) && m@ == e,
            },
    {
        let temperature = match j.get("temperature") {
            None => None,
            Some(v) => match v.as_f64() {
                None => {
                    return Err("generate.temperature non numerica".to_owned());
                },
                Some(n) => {
                    let t = narrow(n);
                    if !is_zero_to_two(t) {
                        let mut msg = "generate.temperature fuori range [0,2]: ".to_owned();
                        push_f32(&mut msg, t);
                        return Err(msg);
                    }
                    Some(t)
                },
            },
        };
        let top_p = match j.get("top_p") {
            None | Some(Json::Null) => None,
            Some(v) => match v.as_f64() {
                None => {
                    return Err("generate.top_p non numerico".to_owned());
                },
                Some(n) => Some(narrow(n)),
            },
        };
        let top_k = match j.get("top_k") {
            None | Some(Json::Null) => None,
            Some(v) => match v.as_usize() {
                None => {
                    return Err("generate.top_k non intero".to_owned());
                },
                Some(n) => Some(n),
            },
        };
        let max_tokens = match j.get("max_tokens") {
            None => None,
            Some(v) => match v.as_usize() {
                None => {
                    return Err("generate.max_tokens non intero".to_owned());
                },
                Some(n) => Some(n),
            },
        };
        Ok(GenerateDefaults { temperature, top_p, top_k, max_tokens })
    }

    /// The layer that a JSON text states: a patch applied at run time.
    pub fn patch_from_str(src: &str) -> (r: Result<Self, String>)
        ensures
            match patch_in(src@) {
                Ok(g) => r == Ok::<GenerateDefaults, String>(g),
                Err(e) => r matches Err(m) && m@ == e,
            },
    {
        match parse(src) {
            Ok(j) => GenerateDefaults::from_json(&j),
            Err(e) => {
                let mut msg = "JSON non valido: ".to_owned();
                msg.push_str(e.as_str());
                Err(msg)
            },
        }
    }
}

/// The layer that a JSON text states.
pub open spec fn patch_in(src: Seq<char>) -> Result<GenerateDefaults, Seq<char>> {
    match crate::json::parsed(encode_utf8(src)) {
        Ok(j) => GenerateDefaults::stated_in(j),
        Err(e) => Err("JSON non valido: "@ + e),
    }
}

// ── configuration files ──

/// The `server` section.
#[derive(Debug, Clone, PartialEq, Eq)]
pub struct ServerDefaults {
    pub host: Option<String>,
    pub port: Option<u16>,
}

/// What one configuration file, or any JSON object, asks for.
#[derive(Debug, Clone, PartialEq, Eq)]
pub struct FileConfig {
    pub server: ServerDefaults,
    pub generate: GenerateDefaults,
    /// Path of the model.
    pub model_path: Option<String>,
    /// Chat template: "auto", "chatml" or "llama3".
    pub model_template: Option<String>,
}

/// Mathematical view of [`FileConfig`].
pub struct FileConfigView {
    pub host: Option<Seq<char>>,
    pub port: Option<u16>,
    pub generate: GenerateDefaults,
    pub model_path: Option<Seq<char>>,
    pub model_template: Option<Seq<char>>,
}

/// The characters of an optional string.
pub open spec fn chars(s: Option<String>) -> Option<Seq<char>> {
    match s {
        Some(t) => Some(t@),
        None => None,
    }
}

impl View for FileConfig {
    type V = FileConfigView;

    open spec fn view(&self) -> FileConfigView {
        FileConfigView {
            host: chars(self.server.host),
            port: self.server.port,
            generate: self.generate,
            model_path: chars(self.model_path),
            model_template: chars(self.model_template),
        }
    }
}

impl Default for ServerDefaults {
    fn default() -> (r: Self)
        ensures
            r.host is None,
            r.port is None,
    {
        ServerDefaults { host: None, port: None }
    }
}

impl Default for FileConfig {
    fn default() -> (r: Self)
        ensures
            r@ == (FileConfigView {
                host: None,
                port: None,
                generate: GenerateDefaults::factory(),
                model_path: None,
                model_template: None,
            }),
    {
        FileConfig {
            server: ServerDefaults::default(),
            generate: GenerateDefaults::default(),
            model_path: None,
            model_template: None,
        }
    }
}

/// The string under a key of a section, if the section and the string are there.
pub open spec fn text_in(j: JsonView, section: Seq<char>, key: Seq<char>) -> Option<Seq<char>> {
    match j.get(section) {
        None => None,
        Some(s) => match s.get(key) {
            Some(JsonView::Str(t)) => Some(t),
            _ => None,
        },
    }
}

/// The port of the `server` section.
pub open spec fn port_in(j: JsonView) -> Result<Option<u16>, Seq<char>> {
    match j.get("server"@) {
        None => Ok(None),
        Some(s) => match s.get("port"@) {
            None => Ok(None),
            Some(v) => match size(v) {
                Some(p) if 0 < p <= 65535 => Ok(Some(p as u16)),
                _ => Err("server.port deve essere 1..65535"@),
            },
        },
    }
}

/// The configuration that a JSON value states. The generation parameters may
/// stand in a section of their own or at the root.
pub open spec fn config_in(j: JsonView) -> Result<FileConfigView, Seq<char>> {
    if !(j is Obj) {
        Err("la config deve essere un oggetto JSON"@)
    } else {
        match port_in(j) {
            Err(e) => Err(e),
            Ok(port) => match GenerateDefaults::stated_in(
                match j.get("generate"@) {
                    Some(g) => g,
                    None => j,
                },
            ) {
                Err(e) => Err(e),
                Ok(generate) => Ok(
                    FileConfigView {
                        host: text_in(j, "server"@, "host"@),
                        port,
                        generate,
                        model_path: text_in(j, "model"@, "path"@),
                        model_template: text_in(j, "model"@, "template"@),
                    },
                ),
            },
        }
    }
}

fn text_at(j: &Json, section: &str, key: &str) -> (r: Option<String>)
    ensures
        chars(r) == text_in(j@, section@, key@),
{
    match j.get(section) {
        None => None,
        Some(s) => match s.get(key) {
            None => None,
            Some(v) => match v.as_str() {
                None => None,
                Some(t) => Some(t.to_owned()),
            },
        },
    }
}

impl FileConfig {
    /// Reads a configuration file.
    pub fn parse(src: &str) -> (r: Result<Self, String>)
        ensures
            match crate::json::parsed(encode_utf8(src@)) {
                Err(e) => r matches Err(m) && m@ == "config non valida: "@ + e,
                Ok(j) => match config_in(j) {
                    Ok(c) => r matches Ok(x) && x@ == c,
                    Err(e) => r matches Err(m) && m@ == e,
                },
            },
    {
        match parse(src) {
            Ok(j) => FileConfig::from_json(&j),
            Err(e) => {
                let mut msg = "config non valida: ".to_owned();
                msg.push_str(e.as_str());
                Err(msg)
            },
        }
    }

    /// The configuration that a JSON value states.
    pub fn from_json(j: &Json) -> (r: Result<Self, String>)
        ensures
            match config_in(j@) {
                Ok(c) => r matches Ok(x) && x@ == c,
                Err(e) => r matches Err(m) && m@ == e,
            },
    {
        let is_object = match j {
            Json::Obj(_) => true,
            _ => false,
        };
        if !is_object {
            return Err("la config deve essere un oggetto JSON".to_owned());
        }
        let host = text_at(j, "server", "host");
        let port: Option<u16> = match j.get("server") {
            None => None,
            Some(s) => match s.get("port") {
                None => None,
                Some(v) => match v.as_usize() {
                    Some(p) if 0 < p && p <= 65535 => Some(p as u16),
                    _ => {
                        return Err("server.port deve essere 1..65535".to_owned());
                    },
                },
            },
        };
        let model_path = text_at(j, "model", "path");
        let model_template = text_at(j, "model", "template");
        let generate = match j.get("generate") {
            Some(g) => GenerateDefaults::from_json(g)?,
            None => GenerateDefaults::from_json(j)?,
        };
        Ok(FileConfig { server: ServerDefaults { host, port }, generate, model_path, model_template })
    }
}

// ── laws ──

/// Layers can be merged in any grouping: only their order matters.
pub proof fn merge_is_associative(a: GenerateDefaults, b: GenerateDefaults, c: GenerateDefaults)
    ensures
        a.under(b).under(c) == a.under(b.under(c)),
{
}

/// A layer that states nothing changes nothing, above or below.
pub proof fn empty_layer_is_neutral(a: GenerateDefaults)
    ensures
        a.under(GenerateDefaults::nothing()) == a,
        GenerateDefaults::nothing().under(a) == a,
{
}

/// The strongest of the layers that state a parameter decides it.
pub proof fn last_layer_wins(
    weak: GenerateDefaults,
    middle: GenerateDefaults,
    strong: GenerateDefaults,
)
    ensures
        strong.temperature is Some ==> weak.under(middle).under(strong).temperature
            == strong.temperature,
        strong.temperature is None && middle.temperature is Some ==> weak.under(middle).under(
            strong,
        ).temperature == middle.temperature,
        strong.temperature is None && middle.temperature is None ==> weak.under(middle).under(
            strong,
        ).temperature == weak.temperature,
        strong.top_p is Some ==> weak.under(middle).under(strong).top_p == strong.top_p,
        strong.top_p is None && middle.top_p is Some ==> weak.under(middle).under(strong).top_p
            == middle.top_p,
        strong.top_p is None && middle.top_p is None ==> weak.under(middle).under(strong).top_p
            == weak.top_p,
        strong.top_k is Some ==> weak.under(middle).under(strong).top_k == strong.top_k,
        strong.top_k is None && middle.top_k is Some ==> weak.under(middle).under(strong).top_k
            == middle.top_k,
        strong.top_k is None && middle.top_k is None ==> weak.under(middle).under(strong).top_k
            == weak.top_k,
        strong.max_tokens is Some ==> weak.under(middle).under(strong).max_tokens
            == strong.max_tokens,
        strong.max_tokens is None && middle.max_tokens is Some ==> weak.under(middle).under(
            strong,
        ).max_tokens == middle.max_tokens,
        strong.max_tokens is None && middle.max_tokens is None ==> weak.under(middle).under(
            strong,
        ).max_tokens == weak.max_tokens,
{
}

/// Applying the same change again changes nothing more.
pub proof fn change_is_idempotent(a: GenerateDefaults, change: GenerateDefaults)
    ensures
        a.under(change).under(change) == a.under(change),
{
}

/// A temperature that was accepted lies between zero and two.
pub proof fn accepted_temperature_is_in_range(j: JsonView)
    ensures
        GenerateDefaults::stated_in(j) matches Ok(g) ==> g.temperature matches Some(t)
            ==> crate::ieee::zero_to_two(t),
{
}

/// Each parameter of a layer is the one that the JSON object states under its own name;
/// what it does not state, or states as null, stays open.
pub proof fn layers_take_their_keys(j: JsonView, g: GenerateDefaults, n: u64)
    requires
        GenerateDefaults::stated_in(j) == Ok::<GenerateDefaults, Seq<char>>(g),
    ensures
        j.get("temperature"@) is None ==> g.temperature is None,
        j.get("temperature"@) == Some(JsonView::Num(n)) ==> g.temperature == Some(
            crate::decimal::narrowed(n) as u32,
        ),
        j.get("top_p"@) is None || j.get("top_p"@) == Some(JsonView::Null) ==> g.top_p is None,
        j.get("top_p"@) == Some(JsonView::Num(n)) ==> g.top_p == Some(
            crate::decimal::narrowed(n) as u32,
        ),
        j.get("top_k"@) is None || j.get("top_k"@) == Some(JsonView::Null) ==> g.top_k is None,
        j.get("top_k"@) == Some(JsonView::Num(n)) ==> g.top_k == Some(
            crate::decimal::clamped(n, usize::MAX as nat) as usize,
        ),
        j.get("max_tokens"@) is None ==> g.max_tokens is None,
        j.get("max_tokens"@) == Some(JsonView::Num(n)) ==> g.max_tokens == Some(
            crate::decimal::clamped(n, usize::MAX as nat) as usize,
        ),
{
}

/// A parameter of the wrong type is refused, and so is a temperature above two.
pub proof fn bad_layers_are_refused(j: JsonView)
    ensures
        GenerateDefaults::stated_in(j) is Ok ==> {
            &&& j.get("temperature"@) matches Some(v) ==> v is Num
            &&& j.get("top_p"@) matches Some(v) ==> v is Num || v is Null
            &&& j.get("top_k"@) matches Some(v) ==> v is Num || v is Null
            &&& j.get("max_tokens"@) matches Some(v) ==> v is Num
        },
{
}

/// The built-in defaults: temperature zero, no cut of the candidates, 256 tokens.
pub proof fn built_in_defaults()
    ensures
        GenerateDefaults::factory().temperature == Some(0u32),
        GenerateDefaults::factory().top_p is None,
        GenerateDefaults::factory().top_k is None,
        GenerateDefaults::factory().max_tokens == Some(256usize),
{
}

/// Each part of a file is the one that it states under its own section and name. The
/// generation parameters stand in a section, or at the root where there is none.
pub proof fn files_take_their_keys(
    j: JsonView,
    c: FileConfigView,
    server: JsonView,
    model: JsonView,
    g: JsonView,
    s: Seq<char>,
    n: u64,
)
    requires
        config_in(j) == Ok::<FileConfigView, Seq<char>>(c),
        j.get("server"@) == Some(server),
        j.get("model"@) == Some(model),
    ensures
        server.get("host"@) == Some(JsonView::Str(s)) ==> c.host == Some(s),
        server.get("host"@) is None ==> c.host is None,
        server.get("port"@) == Some(JsonView::Num(n)) ==> (c.port matches Some(p) && p > 0 && p
            == crate::decimal::clamped(n, usize::MAX as nat)),
        server.get("port"@) is None ==> c.port is None,
        model.get("path"@) == Some(JsonView::Str(s)) ==> c.model_path == Some(s),
        model.get("path"@) is None ==> c.model_path is None,
        model.get("template"@) == Some(JsonView::Str(s)) ==> c.model_template == Some(s),
        model.get("template"@) is None ==> c.model_template is None,
        j.get("generate"@) == Some(g) ==> GenerateDefaults::stated_in(g) == Ok::<
            GenerateDefaults,
            Seq<char>,
        >(c.generate),
        j.get("generate"@) is None ==> GenerateDefaults::stated_in(j) == Ok::<
            GenerateDefaults,
            Seq<char>,
        >(c.generate),
{
}

/// Of a layer whose other parameters are well stated, the temperature decides: it is
/// accepted from zero to two, and refused otherwise.
pub proof fn temperatures_are_accepted_up_to_two(j: JsonView, n: u64)
    requires
        j.get("temperature"@) == Some(JsonView::Num(n)),
        j.get("top_p"@) is None,
        j.get("top_k"@) is None,
        j.get("max_tokens"@) is None,
    ensures
        ({
            let t = crate::decimal::narrowed(n) as u32;
            GenerateDefaults::stated_in(j) is Ok <==> t <= 0x4000_0000 || t == 0x8000_0000
        }),
{
    crate::ieee::range_by_pattern(crate::decimal::narrowed(n) as u32);
}

} // verus!
