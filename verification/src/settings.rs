//! What the server starts with: the command line, the configuration files and the
//! built-in defaults, each layer stronger than the one before.

use vstd::prelude::*;

use crate::config::{FileConfig, GenerateDefaults};
use crate::text::{parse_unsigned, same_text};

verus! {

/// The port when no layer states one.
pub const DEFAULT_PORT: u16 = 8096;

// ── command line ──

/// What the command line asks for.
#[derive(Debug, Clone, PartialEq, Eq)]
pub struct Options {
    pub model: Option<String>,
    /// Path of the user's configuration file.
    pub config: Option<String>,
    pub port: Option<u16>,
    pub host: Option<String>,
}

/// Mathematical view of [`Options`].
pub struct OptionsView {
    pub model: Option<Seq<char>>,
    pub config: Option<Seq<char>>,
    pub port: Option<u16>,
    pub host: Option<Seq<char>>,
}

impl View for Options {
    type V = OptionsView;

    open spec fn view(&self) -> OptionsView {
        OptionsView {
            model: crate::config::chars(self.model),
            config: crate::config::chars(self.config),
            port: self.port,
            host: crate::config::chars(self.host),
        }
    }
}

/// The first argument, if there is one.
pub open spec fn front(args: Seq<Seq<char>>) -> Option<Seq<char>> {
    if args.len() > 0 {
        Some(args[0])
    } else {
        None
    }
}

/// The arguments after the first.
pub open spec fn back(args: Seq<Seq<char>>) -> Seq<Seq<char>> {
    if args.len() > 0 {
        args.drop_first()
    } else {
        args
    }
}

/// The port that an argument states; what is no port states none.
pub open spec fn port_of(arg: Option<Seq<char>>) -> Option<u16> {
    match arg {
        Some(s) => match crate::text::unsigned_in(s, 65535) {
            Some(n) => Some(n as u16),
            None => None,
        },
        None => None,
    }
}

/// The options that arguments state on top of `o`; none when they make no sense.
/// An option takes the argument after it, and the last statement of it counts. The
/// model may also stand alone, as long as none was named before.
pub open spec fn stated(o: OptionsView, args: Seq<Seq<char>>) -> Option<OptionsView>
    decreases args.len(),
{
    if args.len() == 0 {
        Some(o)
    } else {
        let arg = args[0];
        let rest = args.drop_first();
        if arg == "--config"@ {
            stated(OptionsView { config: front(rest), ..o }, back(rest))
        } else if arg == "--port"@ {
            stated(OptionsView { port: port_of(front(rest)), ..o }, back(rest))
        } else if arg == "--host"@ {
            stated(OptionsView { host: front(rest), ..o }, back(rest))
        } else if arg == "--model"@ {
            stated(OptionsView { model: front(rest), ..o }, back(rest))
        } else if o.model is None && !(arg.len() > 0 && arg[0] == '-') {
            stated(OptionsView { model: Some(arg), ..o }, rest)
        } else {
            None
        }
    }
}

/// No options at all.
pub open spec fn no_options() -> OptionsView {
    OptionsView { model: None, config: None, port: None, host: None }
}

fn begins_with_dash(s: &str) -> (r: bool)
    ensures
        r == (s@.len() > 0 && s@[0] == '-'),
{
    let chars = crate::text::chars_of(s);
    chars.len() > 0 && chars[0] == '-'
}

fn argument(args: &[String], i: usize) -> (r: Option<String>)
    requires
        i <= args@.len(),
    ensures
        crate::config::chars(r) == front(crate::pre::texts(args@).skip(i as int)),
{
    if i < args.len() {
        Some(args[i].as_str().to_owned())
    } else {
        None
    }
}

impl Options {
    /// Reads the arguments, without the name of the program.
    pub fn parse(args: &[String]) -> (r: Option<Self>)
        ensures
            match stated(no_options(), crate::pre::texts(args@)) {
                Some(o) => r matches Some(x) && x@ == o,
                None => r is None,
            },
    {
        let ghost all = crate::pre::texts(args@);
        let ghost whole = stated(no_options(), all);
        let mut o = Options { model: None, config: None, port: None, host: None };
        let mut i: usize = 0;
        let n = args.len();
        assert(all.skip(0) =~= all);
        while i < n
            invariant
                n == args@.len(),
                i <= n,
                all == crate::pre::texts(args@),
                whole == stated(no_options(), all),
                whole == stated(o@, all.skip(i as int)),
            decreases n - i,
        {
            let arg = args[i].as_str();
            let ghost rest = all.skip(i as int).drop_first();
            assert(all.skip(i as int)[0] == arg@);
            assert(rest =~= all.skip(i + 1));
            let after: usize = if i + 1 < n {
                i + 2
            } else {
                n
            };
            assert(back(rest) =~= all.skip(after as int));
            if same_text(arg, "--config") {
                o.config = argument(args, i + 1);
                i = after;
            } else if same_text(arg, "--port") {
                o.port = match argument(args, i + 1) {
                    Some(p) => match parse_unsigned(p.as_str(), 65535) {
                        Some(v) => Some(v as u16),
                        None => None,
                    },
                    None => None,
                };
                i = after;
            } else if same_text(arg, "--host") {
                o.host = argument(args, i + 1);
                i = after;
            } else if same_text(arg, "--model") {
                o.model = argument(args, i + 1);
                i = after;
            } else {
                if o.model.is_some() || begins_with_dash(arg) {
                    return None;
                }
                o.model = Some(arg.to_owned());
                i += 1;
            }
        }
        Some(o)
    }
}

// ── layers ──

/// The settings in force.
#[derive(Debug, Clone, PartialEq, Eq)]
pub struct Settings {
    pub model_path: String,
    /// Chat template asked for, if any.
    pub template: Option<String>,
    pub host: String,
    pub port: u16,
    pub generate: GenerateDefaults,
}

/// Mathematical view of [`Settings`].
pub struct SettingsView {
    pub model_path: Seq<char>,
    pub template: Option<Seq<char>>,
    pub host: Seq<char>,
    pub port: u16,
    pub generate: GenerateDefaults,
}

impl View for Settings {
    type V = SettingsView;

    open spec fn view(&self) -> SettingsView {
        SettingsView {
            model_path: self.model_path@,
            template: crate::config::chars(self.template),
            host: self.host@,
            port: self.port,
            generate: self.generate,
        }
    }
}

/// A configuration file under a stronger one.
pub open spec fn file_under(
    weak: crate::config::FileConfigView,
    strong: crate::config::FileConfigView,
) -> crate::config::FileConfigView {
    crate::config::FileConfigView {
        host: crate::config::or(strong.host, weak.host),
        port: crate::config::or(strong.port, weak.port),
        generate: weak.generate.under(strong.generate),
        model_path: crate::config::or(strong.model_path, weak.model_path),
        model_template: crate::config::or(strong.model_template, weak.model_template),
    }
}

/// A file that states nothing.
pub open spec fn silent_file() -> crate::config::FileConfigView {
    crate::config::FileConfigView {
        host: None,
        port: None,
        generate: GenerateDefaults::nothing(),
        model_path: None,
        model_template: None,
    }
}

/// What a file states; one that is not there states nothing.
pub open spec fn file_view(f: Option<FileConfig>) -> crate::config::FileConfigView {
    match f {
        Some(c) => c@,
        None => silent_file(),
    }
}

/// The settings that the layers add up to: built-in defaults, the system's file, the
/// user's file, the command line. None when no layer names a model.
pub open spec fn in_force(
    system: crate::config::FileConfigView,
    user: crate::config::FileConfigView,
    o: OptionsView,
) -> Option<SettingsView> {
    let files = file_under(system, user);
    match crate::config::or(o.model, files.model_path) {
        None => None,
        Some(model_path) => Some(
            SettingsView {
                model_path,
                template: files.model_template,
                host: match crate::config::or(o.host, files.host) {
                    Some(h) => h,
                    None => "127.0.0.1"@,
                },
                port: match crate::config::or(o.port, files.port) {
                    Some(p) => p,
                    None => DEFAULT_PORT,
                },
                generate: GenerateDefaults::factory().under(files.generate),
            },
        ),
    }
}

fn stronger(a: Option<String>, b: Option<String>) -> (r: Option<String>)
    ensures
        crate::config::chars(r) == crate::config::or(
            crate::config::chars(a),
            crate::config::chars(b),
        ),
{
    match a {
        Some(s) => Some(s),
        None => b,
    }
}

fn silent() -> (r: FileConfig)
    ensures
        r@ == silent_file(),
{
    let mut c = FileConfig::default();
    c.generate = GenerateDefaults { temperature: None, top_p: None, top_k: None, max_tokens: None };
    c
}

impl Settings {
    /// Puts the layers together.
    pub fn resolve(system: Option<FileConfig>, user: Option<FileConfig>, options: Options) -> (r:
        Option<Self>)
        ensures
            match in_force(file_view(system), file_view(user), options@) {
                Some(s) => r matches Some(x) && x@ == s,
                None => r is None,
            },
    {
        let low = match system {
            Some(c) => c,
            None => silent(),
        };
        let high = match user {
            Some(c) => c,
            None => silent(),
        };
        let model = stronger(options.model, stronger(high.model_path, low.model_path));
        let model_path = match model {
            Some(p) => p,
            None => {
                return None;
            },
        };
        let template = stronger(high.model_template, low.model_template);
        let host = match stronger(
            options.host,
            stronger(high.server.host, low.server.host),
        ) {
            Some(h) => h,
            None => "127.0.0.1".to_owned(),
        };
        let port: u16 = match options.port {
            Some(p) => p,
            None => match high.server.port {
                Some(p) => p,
                None => match low.server.port {
                    Some(p) => p,
                    None => DEFAULT_PORT,
                },
            },
        };
        let files = low.generate.merge(&high.generate);
        let generate = GenerateDefaults::default().merge(&files);
        Some(Settings { model_path, template, host, port, generate })
    }
}

// ── laws ──

/// The strongest layer that states a value decides it.
pub proof fn strongest_layer_decides(
    system: crate::config::FileConfigView,
    user: crate::config::FileConfigView,
    o: OptionsView,
)
    ensures
        in_force(system, user, o) matches Some(s) ==> {
            &&& o.port matches Some(p) ==> s.port == p
            &&& o.port is None ==> (user.port matches Some(p) ==> s.port == p)
            &&& o.port is None && user.port is None ==> (system.port matches Some(p) ==> s.port
                == p)
            &&& o.port is None && user.port is None && system.port is None ==> s.port
                == DEFAULT_PORT
            &&& o.host matches Some(h) ==> s.host == h
            &&& o.host is None ==> (user.host matches Some(h) ==> s.host == h)
            &&& o.host is None && user.host is None ==> (system.host matches Some(h) ==> s.host
                == h)
            &&& o.model matches Some(m) ==> s.model_path == m
            &&& o.model is None ==> (user.model_path matches Some(m) ==> s.model_path == m)
            &&& s.generate == GenerateDefaults::factory().under(system.generate).under(
                user.generate,
            )
        },
{
}

/// Without any layer there is no model, and nothing can start.
pub proof fn a_model_is_needed(
    system: crate::config::FileConfigView,
    user: crate::config::FileConfigView,
    o: OptionsView,
)
    ensures
        in_force(system, user, o) is None <==> o.model is None && user.model_path is None
            && system.model_path is None,
{
}

/// What no layer states has the built-in value; the template comes from the files, the
/// user's before the system's.
pub proof fn silent_layers_leave_the_defaults(
    system: crate::config::FileConfigView,
    user: crate::config::FileConfigView,
    o: OptionsView,
)
    ensures
        in_force(system, user, o) matches Some(s) ==> {
            &&& o.port is None && user.port is None && system.port is None ==> s.port == 8096
            &&& o.host is None && user.host is None && system.host is None ==> s.host
                == "127.0.0.1"@
            &&& user.model_template is Some ==> s.template == user.model_template
            &&& user.model_template is None ==> s.template == system.model_template
            &&& o.model is None && user.model_path is None ==> Some(s.model_path)
                == system.model_path
            &&& user.generate.max_tokens is None && system.generate.max_tokens is None
                ==> s.generate.max_tokens == Some(256usize)
            &&& user.generate.temperature is None && system.generate.temperature is None
                ==> s.generate.temperature == Some(0u32)
            &&& user.generate.top_k is Some ==> s.generate.top_k == user.generate.top_k
            &&& user.generate.top_p is Some ==> s.generate.top_p == user.generate.top_p
        },
{
}

/// An option takes the argument behind it, and what was stated before is forgotten.
pub proof fn options_take_the_next_argument(o: OptionsView, v: Seq<char>, rest: Seq<Seq<char>>)
    ensures
        stated(o, seq!["--config"@, v] + rest) == stated(
            OptionsView { config: Some(v), ..o },
            rest,
        ),
        stated(o, seq!["--host"@, v] + rest) == stated(OptionsView { host: Some(v), ..o }, rest),
        stated(o, seq!["--model"@, v] + rest) == stated(OptionsView { model: Some(v), ..o }, rest),
{
    reveal_strlit("--config");
    reveal_strlit("--host");
    reveal_strlit("--model");
    reveal_strlit("--port");
    assert("--config"@[2] != "--host"@[2] && "--config"@[2] != "--model"@[2] && "--config"@[2]
        != "--port"@[2]);
    assert("--host"@[2] != "--model"@[2] && "--host"@[2] != "--port"@[2]);
    assert("--model"@[2] != "--port"@[2]);
    two_at_the_front("--config"@, v, rest);
    two_at_the_front("--host"@, v, rest);
    two_at_the_front("--model"@, v, rest);
}

proof fn two_at_the_front(a: Seq<char>, b: Seq<char>, rest: Seq<Seq<char>>)
    ensures
        (seq![a, b] + rest)[0] == a,
        (seq![a, b] + rest).len() > 0,
        front((seq![a, b] + rest).drop_first()) == Some(b),
        back((seq![a, b] + rest).drop_first()) == rest,
{
    let all = seq![a, b] + rest;
    assert(all.drop_first() =~= seq![b] + rest);
    assert((seq![b] + rest).drop_first() =~= rest);
}

/// The port is the number that the argument behind the option states.
pub proof fn ports_are_numbers(o: OptionsView, p: u16, rest: Seq<Seq<char>>)
    ensures
        stated(o, seq!["--port"@, crate::text::decimal(p as nat)] + rest) == stated(
            OptionsView { port: Some(p), ..o },
            rest,
        ),
{
    reveal_strlit("--config");
    reveal_strlit("--port");
    assert("--config"@[2] != "--port"@[2]);
    two_at_the_front("--port"@, crate::text::decimal(p as nat), rest);
    crate::text::numerals_are_numbers(p as nat, 65535);
}

/// An argument that is no option names the model, unless one was named before.
pub proof fn arguments_name_the_model(o: OptionsView, v: Seq<char>, rest: Seq<Seq<char>>)
    requires
        v.len() == 0 || v[0] != '-',
    ensures
        o.model is None ==> stated(o, seq![v] + rest) == stated(
            OptionsView { model: Some(v), ..o },
            rest,
        ),
        o.model is Some ==> stated(o, seq![v] + rest) is None,
{
    reveal_strlit("--config");
    reveal_strlit("--host");
    reveal_strlit("--model");
    reveal_strlit("--port");
    let all = seq![v] + rest;
    assert(all[0] == v);
    assert(all.drop_first() =~= rest);
}

} // verus!
