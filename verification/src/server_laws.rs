//! Every answer of the server is JSON that reads as what the server means: a client
//! gets back the generated text, the messages of errors and the settings exactly.

use vstd::prelude::*;
use vstd::utf8::*;

verus! {

// ── putting texts together ──

/// Appending is associative.
broadcast proof fn append_right(a: Seq<char>, b: Seq<char>, c: Seq<char>)
    ensures
        #[trigger] ((a + b) + c) == a + (b + c),
{
    assert((a + b) + c =~= a + (b + c));
}

/// A character that is written as it is inside a JSON string.
pub open spec fn is_clean(c: char) -> bool {
    c as u32 >= 0x20 && c != '"' && c != '\\'
}

proof fn clean_chars(s: Seq<char>)
    requires
        forall|i: int| 0 <= i < s.len() ==> is_clean(#[trigger] s[i]),
    ensures
        crate::json::escaped_chars(s) == s,
    decreases s.len(),
{
    if s.len() > 0 {
        let rest = s.drop_first();
        assert forall|i: int| 0 <= i < rest.len() implies is_clean(#[trigger] rest[i]) by {
            assert(rest[i] == s[i + 1]);
        }
        clean_chars(rest);
        assert(is_clean(s[0]));
        assert(crate::json::escaped_char(s[0]) =~= seq![s[0]]);
        assert(seq![s[0]] + rest =~= s);
    } else {
        assert(crate::json::escaped_chars(s) =~= s);
    }
}

/// A clean text is written between quotes as it is.
proof fn clean_text(s: Seq<char>)
    requires
        forall|i: int| 0 <= i < s.len() ==> is_clean(#[trigger] s[i]),
    ensures
        crate::json::escaped(s) == seq!['"'] + (s + seq!['"']),
{
    clean_chars(s);
    assert(crate::json::escaped(s) =~= seq!['"'] + (s + seq!['"']));
}

// ── errors ──

/// What an error says.
pub open spec fn error_value(msg: Seq<char>) -> crate::json::JsonView {
    crate::json::JsonView::Obj(seq![("error"@, crate::json::JsonView::Str(msg))])
}

proof fn error_text(msg: Seq<char>)
    ensures
        crate::server::error_body(msg) == seq!['{'] + crate::json_laws::entry(
            "error"@,
            crate::json::escaped(msg),
        ) + seq!['}'],
{
    assert("{\"error\":"@ == seq!['{'] + (crate::json::escaped("error"@) + seq![':'])) by {
        reveal_strlit("error");
        reveal_strlit("{\"error\":");
        clean_text("error"@);
        assert("{\"error\":"@ =~= seq!['{'] + (crate::json::escaped("error"@) + seq![':']));
    }
    assert("}"@ == seq!['}']) by {
        reveal_strlit("}");
        assert("}"@ =~= seq!['}']);
    }
    broadcast use append_right;

}

/// Whatever a refusal complains about, its message reads back exactly.
pub proof fn errors_read_back(msg: Seq<char>)
    ensures
        crate::json::parsed(encode_utf8(crate::server::error_body(msg))) == Ok::<
            crate::json::JsonView,
            Seq<char>,
        >(error_value(msg)),
{
    let m = crate::json::escaped(msg);
    crate::json_laws::string_denotes(msg);
    crate::json_laws::one_member("error"@, m, crate::json::JsonView::Str(msg));
    crate::json_laws::closed_object_denotes(
        crate::json_laws::entry("error"@, m),
        seq![("error"@, crate::json::JsonView::Str(msg))],
    );
    error_text(msg);
    crate::json_laws::denoted_value_is_read(crate::server::error_body(msg), error_value(msg));
}

// ── the fixed parts of the bodies ──

proof fn status_literal()
    ensures
        "{\"status\":\"ok\",\"model\":"@ == seq!['{'] + (crate::json::escaped("status"@)
            + (seq![':'] + (crate::json::escaped("ok"@) + (seq![',']
            + (crate::json::escaped("model"@) + (seq![':'])))))),
{
    reveal_strlit("{\"status\":\"ok\",\"model\":");
    reveal_strlit("status");
    clean_text("status"@);
    reveal_strlit("ok");
    clean_text("ok"@);
    reveal_strlit("model");
    clean_text("model"@);
    assert("{\"status\":\"ok\",\"model\":"@ =~= seq!['{'] + (crate::json::escaped("status"@)
        + (seq![':'] + (crate::json::escaped("ok"@) + (seq![',']
        + (crate::json::escaped("model"@) + (seq![':'])))))));
}

proof fn layers_literal()
    ensures
        ",\"layers\":"@ == seq![','] + (crate::json::escaped("layers"@) + (seq![':'])),
{
    reveal_strlit(",\"layers\":");
    reveal_strlit("layers");
    clean_text("layers"@);
    assert(",\"layers\":"@ =~= seq![','] + (crate::json::escaped("layers"@) + (seq![':'])));
}

proof fn embd_literal()
    ensures
        ",\"embd\":"@ == seq![','] + (crate::json::escaped("embd"@) + (seq![':'])),
{
    reveal_strlit(",\"embd\":");
    reveal_strlit("embd");
    clean_text("embd"@);
    assert(",\"embd\":"@ =~= seq![','] + (crate::json::escaped("embd"@) + (seq![':'])));
}

proof fn chat_literal()
    ensures
        ",\"chat\":\""@ == seq![','] + (crate::json::escaped("chat"@) + (seq![':'] + (seq!['"']))),
{
    reveal_strlit(",\"chat\":\"");
    reveal_strlit("chat");
    clean_text("chat"@);
    assert(",\"chat\":\""@ =~= seq![','] + (crate::json::escaped("chat"@) + (seq![':']
        + (seq!['"']))));
}

proof fn source_literal()
    ensures
        "\",\"tpl_from\":\""@ == seq!['"'] + (seq![','] + (crate::json::escaped("tpl_from"@)
            + (seq![':'] + (seq!['"'])))),
{
    reveal_strlit("\",\"tpl_from\":\"");
    reveal_strlit("tpl_from");
    clean_text("tpl_from"@);
    assert("\",\"tpl_from\":\""@ =~= seq!['"'] + (seq![','] + (crate::json::escaped("tpl_from"@)
        + (seq![':'] + (seq!['"'])))));
}

proof fn id_literal()
    ensures
        "{\"id\":"@ == seq!['{'] + (crate::json::escaped("id"@) + (seq![':'])),
{
    reveal_strlit("{\"id\":");
    reveal_strlit("id");
    clean_text("id"@);
    assert("{\"id\":"@ =~= seq!['{'] + (crate::json::escaped("id"@) + (seq![':'])));
}

proof fn completion_literal()
    ensures
        ",\"object\":\"text_completion\",\"choices\":[{\"text\":"@ == seq![',']
            + (crate::json::escaped("object"@) + (seq![':']
            + (crate::json::escaped("text_completion"@) + (seq![',']
            + (crate::json::escaped("choices"@) + (seq![':'] + (seq!['['] + (seq!['{']
            + (crate::json::escaped("text"@) + (seq![':'])))))))))),
{
    reveal_strlit(",\"object\":\"text_completion\",\"choices\":[{\"text\":");
    reveal_strlit("object");
    clean_text("object"@);
    reveal_strlit("text_completion");
    clean_text("text_completion"@);
    reveal_strlit("choices");
    clean_text("choices"@);
    reveal_strlit("text");
    clean_text("text"@);
    assert(",\"object\":\"text_completion\",\"choices\":[{\"text\":"@ =~= seq![',']
        + (crate::json::escaped("object"@) + (seq![':']
        + (crate::json::escaped("text_completion"@) + (seq![',']
        + (crate::json::escaped("choices"@) + (seq![':'] + (seq!['['] + (seq!['{']
        + (crate::json::escaped("text"@) + (seq![':'])))))))))));
}

proof fn chat_object_literal()
    ensures
        ",\"object\":\"chat.completion\",\"choices\":[{\"index\":0,\"message\":{\"role\":\"assistant\",\"content\":"@ == seq![',']
            + (crate::json::escaped("object"@) + (seq![':']
            + (crate::json::escaped("chat.completion"@) + (seq![',']
            + (crate::json::escaped("choices"@) + (seq![':'] + (seq!['['] + (seq!['{']
            + (crate::json::escaped("index"@) + (seq![':'] + (crate::text::decimal(0)
            + (seq![','] + (crate::json::escaped("message"@) + (seq![':'] + (seq!['{']
            + (crate::json::escaped("role"@) + (seq![':'] + (crate::json::escaped("assistant"@)
            + (seq![','] + (crate::json::escaped("content"@) + (seq![':']))))))))))))))))))))),
{
    reveal_strlit(",\"object\":\"chat.completion\",\"choices\":[{\"index\":0,\"message\":{\"role\":\"assistant\",\"content\":");
    reveal_strlit("object");
    clean_text("object"@);
    reveal_strlit("chat.completion");
    clean_text("chat.completion"@);
    reveal_strlit("choices");
    clean_text("choices"@);
    reveal_strlit("index");
    clean_text("index"@);
    reveal_strlit("message");
    clean_text("message"@);
    reveal_strlit("role");
    clean_text("role"@);
    reveal_strlit("assistant");
    clean_text("assistant"@);
    reveal_strlit("content");
    clean_text("content"@);
    assert(",\"object\":\"chat.completion\",\"choices\":[{\"index\":0,\"message\":{\"role\":\"assistant\",\"content\":"@ =~= seq![',']
        + (crate::json::escaped("object"@) + (seq![':']
        + (crate::json::escaped("chat.completion"@) + (seq![',']
        + (crate::json::escaped("choices"@) + (seq![':'] + (seq!['['] + (seq!['{']
        + (crate::json::escaped("index"@) + (seq![':'] + (crate::text::decimal(0) + (seq![',']
        + (crate::json::escaped("message"@) + (seq![':'] + (seq!['{']
        + (crate::json::escaped("role"@) + (seq![':'] + (crate::json::escaped("assistant"@)
        + (seq![','] + (crate::json::escaped("content"@) + (seq![':']))))))))))))))))))))));
}

proof fn reason_literal()
    ensures
        ",\"finish_reason\":"@ == seq![','] + (crate::json::escaped("finish_reason"@)
            + (seq![':'])),
{
    reveal_strlit(",\"finish_reason\":");
    reveal_strlit("finish_reason");
    clean_text("finish_reason"@);
    assert(",\"finish_reason\":"@ =~= seq![','] + (crate::json::escaped("finish_reason"@)
        + (seq![':'])));
}

proof fn chat_reason_literal()
    ensures
        "},\"finish_reason\":"@ == seq!['}'] + (seq![',']
            + (crate::json::escaped("finish_reason"@) + (seq![':']))),
{
    reveal_strlit("},\"finish_reason\":");
    reveal_strlit("finish_reason");
    clean_text("finish_reason"@);
    assert("},\"finish_reason\":"@ =~= seq!['}'] + (seq![',']
        + (crate::json::escaped("finish_reason"@) + (seq![':']))));
}

proof fn choices_literal()
    ensures
        "}],"@ == seq!['}'] + (seq![']'] + (seq![','])),
{
    reveal_strlit("}],");
    assert("}],"@ =~= seq!['}'] + (seq![']'] + (seq![','])));
}

proof fn usage_literal()
    ensures
        "\"usage\":{\"prompt_tokens\":"@ == crate::json::escaped("usage"@) + (seq![':']
            + (seq!['{'] + (crate::json::escaped("prompt_tokens"@) + (seq![':'])))),
{
    reveal_strlit("\"usage\":{\"prompt_tokens\":");
    reveal_strlit("usage");
    clean_text("usage"@);
    reveal_strlit("prompt_tokens");
    clean_text("prompt_tokens"@);
    assert("\"usage\":{\"prompt_tokens\":"@ =~= crate::json::escaped("usage"@) + (seq![':']
        + (seq!['{'] + (crate::json::escaped("prompt_tokens"@) + (seq![':'])))));
}

proof fn completion_tokens_literal()
    ensures
        ",\"completion_tokens\":"@ == seq![','] + (crate::json::escaped("completion_tokens"@)
            + (seq![':'])),
{
    reveal_strlit(",\"completion_tokens\":");
    reveal_strlit("completion_tokens");
    clean_text("completion_tokens"@);
    assert(",\"completion_tokens\":"@ =~= seq![',']
        + (crate::json::escaped("completion_tokens"@) + (seq![':'])));
}

proof fn total_tokens_literal()
    ensures
        ",\"total_tokens\":"@ == seq![','] + (crate::json::escaped("total_tokens"@) + (seq![':'])),
{
    reveal_strlit(",\"total_tokens\":");
    reveal_strlit("total_tokens");
    clean_text("total_tokens"@);
    assert(",\"total_tokens\":"@ =~= seq![','] + (crate::json::escaped("total_tokens"@)
        + (seq![':'])));
}

proof fn speed_literal()
    ensures
        "},\"tokens_per_second\":"@ == seq!['}'] + (seq![',']
            + (crate::json::escaped("tokens_per_second"@) + (seq![':']))),
{
    reveal_strlit("},\"tokens_per_second\":");
    reveal_strlit("tokens_per_second");
    clean_text("tokens_per_second"@);
    assert("},\"tokens_per_second\":"@ =~= seq!['}'] + (seq![',']
        + (crate::json::escaped("tokens_per_second"@) + (seq![':']))));
}

proof fn host_literal()
    ensures
        "{\"server\":{\"host\":"@ == seq!['{'] + (crate::json::escaped("server"@) + (seq![':']
            + (seq!['{'] + (crate::json::escaped("host"@) + (seq![':']))))),
{
    reveal_strlit("{\"server\":{\"host\":");
    reveal_strlit("server");
    clean_text("server"@);
    reveal_strlit("host");
    clean_text("host"@);
    assert("{\"server\":{\"host\":"@ =~= seq!['{'] + (crate::json::escaped("server"@)
        + (seq![':'] + (seq!['{'] + (crate::json::escaped("host"@) + (seq![':']))))));
}

proof fn port_literal()
    ensures
        ",\"port\":"@ == seq![','] + (crate::json::escaped("port"@) + (seq![':'])),
{
    reveal_strlit(",\"port\":");
    reveal_strlit("port");
    clean_text("port"@);
    assert(",\"port\":"@ =~= seq![','] + (crate::json::escaped("port"@) + (seq![':'])));
}

proof fn temperature_literal()
    ensures
        "},\"generate\":{\"temperature\":"@ == seq!['}'] + (seq![',']
            + (crate::json::escaped("generate"@) + (seq![':'] + (seq!['{']
            + (crate::json::escaped("temperature"@) + (seq![':'])))))),
{
    reveal_strlit("},\"generate\":{\"temperature\":");
    reveal_strlit("generate");
    clean_text("generate"@);
    reveal_strlit("temperature");
    clean_text("temperature"@);
    assert("},\"generate\":{\"temperature\":"@ =~= seq!['}'] + (seq![',']
        + (crate::json::escaped("generate"@) + (seq![':'] + (seq!['{']
        + (crate::json::escaped("temperature"@) + (seq![':'])))))));
}

proof fn top_p_literal()
    ensures
        ",\"top_p\":"@ == seq![','] + (crate::json::escaped("top_p"@) + (seq![':'])),
{
    reveal_strlit(",\"top_p\":");
    reveal_strlit("top_p");
    clean_text("top_p"@);
    assert(",\"top_p\":"@ =~= seq![','] + (crate::json::escaped("top_p"@) + (seq![':'])));
}

proof fn top_k_literal()
    ensures
        ",\"top_k\":"@ == seq![','] + (crate::json::escaped("top_k"@) + (seq![':'])),
{
    reveal_strlit(",\"top_k\":");
    reveal_strlit("top_k");
    clean_text("top_k"@);
    assert(",\"top_k\":"@ =~= seq![','] + (crate::json::escaped("top_k"@) + (seq![':'])));
}

proof fn max_tokens_literal()
    ensures
        ",\"max_tokens\":"@ == seq![','] + (crate::json::escaped("max_tokens"@) + (seq![':'])),
{
    reveal_strlit(",\"max_tokens\":");
    reveal_strlit("max_tokens");
    clean_text("max_tokens"@);
    assert(",\"max_tokens\":"@ =~= seq![','] + (crate::json::escaped("max_tokens"@) + (seq![':'])));
}

// ── models ──

/// What the confirmation of a model says.
pub open spec fn model_value(name: Seq<char>) -> crate::json::JsonView {
    crate::json::JsonView::Obj(
        seq![
            ("status"@, crate::json::JsonView::Str("ok"@)),
            ("model"@, crate::json::JsonView::Str(name)),
        ],
    )
}

spec fn model_inside(name: Seq<char>) -> Seq<char> {
    crate::json_laws::entry("status"@, crate::json::escaped("ok"@)) + (seq![',']
        + crate::json_laws::entry("model"@, crate::json::escaped(name)))
}

proof fn model_text(name: Seq<char>)
    ensures
        crate::server::model_body(name) == seq!['{'] + model_inside(name) + seq!['}'],
{
    status_literal();
    assert("}"@ == seq!['}']) by {
        reveal_strlit("}");
        assert("}"@ =~= seq!['}']);
    }
    broadcast use append_right;

}

/// The confirmation of a model reads back with the name of the model.
pub proof fn model_confirmations_read_back(name: Seq<char>)
    ensures
        crate::json::parsed(encode_utf8(crate::server::model_body(name))) == Ok::<
            crate::json::JsonView,
            Seq<char>,
        >(model_value(name)),
{
    let ok = crate::json::JsonView::Str("ok"@);
    let nv = crate::json::JsonView::Str(name);
    crate::json_laws::string_denotes("ok"@);
    crate::json_laws::string_denotes(name);
    let tn = crate::json::escaped(name);
    let to = crate::json::escaped("ok"@);
    let p1 = seq![("model"@, nv)];
    crate::json_laws::one_member("model"@, tn, nv);
    let p2 = seq![("status"@, ok)] + p1;
    crate::json_laws::one_more_member(
        "status"@,
        to,
        ok,
        crate::json_laws::entry("model"@, tn),
        p1,
    );
    crate::json_laws::closed_object_denotes(model_inside(name), p2);
    assert(p2 =~= model_value(name)->Obj_0);
    model_text(name);
    crate::json_laws::denoted_value_is_read(crate::server::model_body(name), model_value(name));
}

/// A natural number as JSON has it.
pub open spec fn natural(n: nat) -> crate::json::JsonView {
    crate::json::JsonView::Num(crate::json_laws::signed_double(false, n, 0))
}

/// What the health of the server says.
pub open spec fn health_value(
    name: Seq<char>,
    layers: nat,
    embd: nat,
    chat: Seq<char>,
    source: Seq<char>,
) -> crate::json::JsonView {
    crate::json::JsonView::Obj(
        seq![
            ("status"@, crate::json::JsonView::Str("ok"@)),
            ("model"@, crate::json::JsonView::Str(name)),
            ("layers"@, natural(layers)),
            ("embd"@, natural(embd)),
            ("chat"@, crate::json::JsonView::Str(chat)),
            ("tpl_from"@, crate::json::JsonView::Str(source)),
        ],
    )
}

spec fn health_inside(
    name: Seq<char>,
    layers: nat,
    embd: nat,
    chat: Seq<char>,
    source: Seq<char>,
) -> Seq<char> {
    let m1 = crate::json_laws::entry("tpl_from"@, crate::json::escaped(source));
    let m2 = crate::json_laws::entry("chat"@, crate::json::escaped(chat)) + (seq![','] + m1);
    let m3 = crate::json_laws::entry("embd"@, crate::text::decimal(embd)) + (seq![','] + m2);
    let m4 = crate::json_laws::entry("layers"@, crate::text::decimal(layers)) + (seq![','] + m3);
    let m5 = crate::json_laws::entry("model"@, crate::json::escaped(name)) + (seq![','] + m4);
    crate::json_laws::entry("status"@, crate::json::escaped("ok"@)) + (seq![','] + m5)
}

#[verifier::rlimit(50)]
proof fn health_text(
    name: Seq<char>,
    layers: nat,
    embd: nat,
    chat: Seq<char>,
    source: Seq<char>,
)
    requires
        forall|i: int| 0 <= i < chat.len() ==> is_clean(#[trigger] chat[i]),
        forall|i: int| 0 <= i < source.len() ==> is_clean(#[trigger] source[i]),
    ensures
        crate::server::health_body(name, layers, embd, chat, source) == seq!['{'] + health_inside(
            name,
            layers,
            embd,
            chat,
            source,
        ) + seq!['}'],
{
    clean_text(chat);
    clean_text(source);
    status_literal();
    layers_literal();
    embd_literal();
    chat_literal();
    source_literal();
    assert("\"}"@ == seq!['"'] + seq!['}']) by {
        reveal_strlit("\"}");
        assert("\"}"@ =~= seq!['"'] + seq!['}']);
    }
    broadcast use append_right;

}

/// The health of the server reads back; the names of the chat format and of where it
/// came from are clean texts.
#[verifier::rlimit(50)]
pub proof fn health_reads_back(
    name: Seq<char>,
    layers: nat,
    embd: nat,
    chat: Seq<char>,
    source: Seq<char>,
)
    requires
        forall|i: int| 0 <= i < chat.len() ==> is_clean(#[trigger] chat[i]),
        forall|i: int| 0 <= i < source.len() ==> is_clean(#[trigger] source[i]),
    ensures
        crate::json::parsed(
            encode_utf8(crate::server::health_body(name, layers, embd, chat, source)),
        ) == Ok::<crate::json::JsonView, Seq<char>>(
            health_value(name, layers, embd, chat, source),
        ),
{
    let s = |t: Seq<char>| crate::json::JsonView::Str(t);
    let x = |t: Seq<char>| crate::json::escaped(t);
    crate::json_laws::string_denotes("ok"@);
    crate::json_laws::string_denotes(name);
    crate::json_laws::string_denotes(chat);
    crate::json_laws::string_denotes(source);
    crate::json_laws::natural_denotes(layers);
    crate::json_laws::natural_denotes(embd);
    let m1 = crate::json_laws::entry("tpl_from"@, x(source));
    let p1 = seq![("tpl_from"@, s(source))];
    crate::json_laws::one_member("tpl_from"@, x(source), s(source));
    let m2 = crate::json_laws::entry("chat"@, x(chat)) + (seq![','] + m1);
    let p2 = seq![("chat"@, s(chat))] + p1;
    crate::json_laws::one_more_member("chat"@, x(chat), s(chat), m1, p1);
    let te = crate::text::decimal(embd);
    let m3 = crate::json_laws::entry("embd"@, te) + (seq![','] + m2);
    let p3 = seq![("embd"@, natural(embd))] + p2;
    crate::json_laws::one_more_member("embd"@, te, natural(embd), m2, p2);
    let tl = crate::text::decimal(layers);
    let m4 = crate::json_laws::entry("layers"@, tl) + (seq![','] + m3);
    let p4 = seq![("layers"@, natural(layers))] + p3;
    crate::json_laws::one_more_member("layers"@, tl, natural(layers), m3, p3);
    let m5 = crate::json_laws::entry("model"@, x(name)) + (seq![','] + m4);
    let p5 = seq![("model"@, s(name))] + p4;
    crate::json_laws::one_more_member("model"@, x(name), s(name), m4, p4);
    let m6 = crate::json_laws::entry("status"@, x("ok"@)) + (seq![','] + m5);
    let p6 = seq![("status"@, s("ok"@))] + p5;
    crate::json_laws::one_more_member("status"@, x("ok"@), s("ok"@), m5, p5);
    crate::json_laws::closed_object_denotes(m6, p6);
    assert(crate::json::JsonView::Obj(p6) == health_value(name, layers, embd, chat, source)) by {
        assert(p6 =~= health_value(name, layers, embd, chat, source)->Obj_0);
    }
    health_text(name, layers, embd, chat, source);
    let body = crate::server::health_body(name, layers, embd, chat, source);
    crate::json_laws::denoted_value_is_read(
        body,
        health_value(name, layers, embd, chat, source),
    );
}

// ── results ──

/// What the usage of an answer says.
pub open spec fn usage_value(prompt_tokens: nat, generated: nat) -> crate::json::JsonView {
    crate::json::JsonView::Obj(
        seq![
            ("prompt_tokens"@, natural(prompt_tokens)),
            ("completion_tokens"@, natural(generated)),
            ("total_tokens"@, natural(prompt_tokens + generated)),
        ],
    )
}

/// The speed of an answer, to two decimals.
pub open spec fn speed_value(per_second: u32) -> crate::json::JsonView {
    crate::json::JsonView::Num(
        crate::json_laws::signed_double(false, crate::fixed::hundredths(per_second), -2),
    )
}

/// The members that tell how much was generated and how fast.
#[verifier::rlimit(50)]
proof fn usage_is_inside(prompt_tokens: nat, generated: nat, per_second: u32)
    requires
        per_second < 0x7f80_0000,
    ensures
        crate::json_laws::inside(
            crate::server::usage_text(prompt_tokens, generated, per_second),
            seq![("usage"@, usage_value(prompt_tokens, generated))] + seq![
                ("tokens_per_second"@, speed_value(per_second)),
            ],
        ),
{
    broadcast use append_right;

    let total = prompt_tokens + generated;
    let tp = crate::text::decimal(prompt_tokens);
    let tg = crate::text::decimal(generated);
    let tt = crate::text::decimal(total);
    crate::json_laws::natural_denotes(prompt_tokens);
    crate::json_laws::natural_denotes(generated);
    crate::json_laws::natural_denotes(total);
    let m1 = crate::json_laws::entry("total_tokens"@, tt);
    let p1 = seq![("total_tokens"@, natural(total))];
    crate::json_laws::one_member("total_tokens"@, tt, natural(total));
    let m2 = crate::json_laws::entry("completion_tokens"@, tg) + (seq![','] + m1);
    let p2 = seq![("completion_tokens"@, natural(generated))] + p1;
    crate::json_laws::one_more_member("completion_tokens"@, tg, natural(generated), m1, p1);
    let m3 = crate::json_laws::entry("prompt_tokens"@, tp) + (seq![','] + m2);
    let p3 = seq![("prompt_tokens"@, natural(prompt_tokens))] + p2;
    crate::json_laws::one_more_member("prompt_tokens"@, tp, natural(prompt_tokens), m2, p2);
    crate::json_laws::closed_object_denotes(m3, p3);
    assert(crate::json::JsonView::Obj(p3) == usage_value(prompt_tokens, generated)) by {
        assert(p3 =~= usage_value(prompt_tokens, generated)->Obj_0);
    }
    let u = seq!['{'] + m3 + seq!['}'];
    let ts = crate::fixed::two_decimals(per_second);
    crate::json_laws::hundredths_denote(crate::fixed::hundredths(per_second));
    let m4 = crate::json_laws::entry("tokens_per_second"@, ts);
    let p4 = seq![("tokens_per_second"@, speed_value(per_second))];
    crate::json_laws::one_member("tokens_per_second"@, ts, speed_value(per_second));
    let m5 = crate::json_laws::entry("usage"@, u) + (seq![','] + m4);
    crate::json_laws::one_more_member(
        "usage"@,
        u,
        usage_value(prompt_tokens, generated),
        m4,
        p4,
    );
    usage_literal();
    completion_tokens_literal();
    total_tokens_literal();
    speed_literal();
    assert(crate::server::usage_text(prompt_tokens, generated, per_second) == m5);
}

/// The choice of a completion.
pub open spec fn text_choice_value(text: Seq<char>, reason: Seq<char>) -> crate::json::JsonView {
    crate::json::JsonView::Obj(
        seq![
            ("text"@, crate::json::JsonView::Str(text)),
            ("finish_reason"@, crate::json::JsonView::Str(reason)),
        ],
    )
}

/// What a completion says.
pub open spec fn completion_value(
    id: Seq<char>,
    text: Seq<char>,
    reason: Seq<char>,
    prompt_tokens: nat,
    generated: nat,
    per_second: u32,
) -> crate::json::JsonView {
    crate::json::JsonView::Obj(
        seq![
            ("id"@, crate::json::JsonView::Str(id)),
            ("object"@, crate::json::JsonView::Str("text_completion"@)),
            ("choices"@, crate::json::JsonView::Arr(seq![text_choice_value(text, reason)])),
            ("usage"@, usage_value(prompt_tokens, generated)),
            ("tokens_per_second"@, speed_value(per_second)),
        ],
    )
}

/// One value in brackets denotes the array of that value.
proof fn single_item(t: Seq<char>, v: crate::json::JsonView)
    requires
        crate::json_laws::denotes(t, v),
    ensures
        crate::json_laws::denotes(
            seq!['['] + t + seq![']'],
            crate::json::JsonView::Arr(seq![v]),
        ),
{
    crate::json_laws::array_denotes(seq![t], seq![v]);
    assert(crate::json_laws::listed(seq![t]) == t);
}

spec fn completion_choice(text: Seq<char>, reason: Seq<char>) -> Seq<char> {
    seq!['{'] + (crate::json_laws::entry("text"@, crate::json::escaped(text)) + (seq![',']
        + crate::json_laws::entry("finish_reason"@, crate::json::escaped(reason)))) + seq!['}']
}

spec fn answer_inside(
    id: Seq<char>,
    object: Seq<char>,
    choice: Seq<char>,
    usage: Seq<char>,
) -> Seq<char> {
    let m1 = crate::json_laws::entry("choices"@, seq!['['] + choice + seq![']']) + (seq![',']
        + usage);
    let m2 = crate::json_laws::entry("object"@, crate::json::escaped(object)) + (seq![','] + m1);
    crate::json_laws::entry("id"@, crate::json::escaped(id)) + (seq![','] + m2)
}

spec fn answer_members(
    id: Seq<char>,
    object: Seq<char>,
    choice: crate::json::JsonView,
    rest: Seq<(Seq<char>, crate::json::JsonView)>,
) -> Seq<(Seq<char>, crate::json::JsonView)> {
    seq![("id"@, crate::json::JsonView::Str(id))] + (seq![
        ("object"@, crate::json::JsonView::Str(object)),
    ] + (seq![("choices"@, crate::json::JsonView::Arr(seq![choice]))] + rest))
}

proof fn answer_members_in_order(
    id: Seq<char>,
    object: Seq<char>,
    choice: crate::json::JsonView,
    usage: crate::json::JsonView,
    speed: crate::json::JsonView,
)
    ensures
        answer_members(id, object, choice, seq![("usage"@, usage)] + seq![
            ("tokens_per_second"@, speed),
        ]) == seq![
            ("id"@, crate::json::JsonView::Str(id)),
            ("object"@, crate::json::JsonView::Str(object)),
            ("choices"@, crate::json::JsonView::Arr(seq![choice])),
            ("usage"@, usage),
            ("tokens_per_second"@, speed),
        ],
{
    assert(answer_members(id, object, choice, seq![("usage"@, usage)] + seq![
        ("tokens_per_second"@, speed),
    ]) =~= seq![
        ("id"@, crate::json::JsonView::Str(id)),
        ("object"@, crate::json::JsonView::Str(object)),
        ("choices"@, crate::json::JsonView::Arr(seq![choice])),
        ("usage"@, usage),
        ("tokens_per_second"@, speed),
    ]);
}

/// The members of an answer with one choice.
#[verifier::rlimit(50)]
proof fn answer_is_inside(
    id: Seq<char>,
    object: Seq<char>,
    choice: Seq<char>,
    value: crate::json::JsonView,
    usage: Seq<char>,
    rest: Seq<(Seq<char>, crate::json::JsonView)>,
)
    requires
        crate::json_laws::denotes(choice, value),
        crate::json_laws::inside(usage, rest),
    ensures
        crate::json_laws::inside(
            answer_inside(id, object, choice, usage),
            answer_members(id, object, value, rest),
        ),
{
    let list = seq!['['] + choice + seq![']'];
    let choices = crate::json::JsonView::Arr(seq![value]);
    single_item(choice, value);
    let m1 = crate::json_laws::entry("choices"@, list) + (seq![','] + usage);
    let p1 = seq![("choices"@, choices)] + rest;
    crate::json_laws::one_more_member("choices"@, list, choices, usage, rest);
    let to = crate::json::escaped(object);
    let ov = crate::json::JsonView::Str(object);
    crate::json_laws::string_denotes(object);
    let m2 = crate::json_laws::entry("object"@, to) + (seq![','] + m1);
    let p2 = seq![("object"@, ov)] + p1;
    crate::json_laws::one_more_member("object"@, to, ov, m1, p1);
    crate::json_laws::string_denotes(id);
    crate::json_laws::one_more_member(
        "id"@,
        crate::json::escaped(id),
        crate::json::JsonView::Str(id),
        m2,
        p2,
    );
}

#[verifier::rlimit(50)]
proof fn completion_text(id: Seq<char>, text: Seq<char>, reason: Seq<char>, usage: Seq<char>)
    ensures
        crate::server::completion_body(id, text, reason, usage) == seq!['{'] + answer_inside(
            id,
            "text_completion"@,
            completion_choice(text, reason),
            usage,
        ) + seq!['}'],
{
    id_literal();
    completion_literal();
    reason_literal();
    choices_literal();
    assert("}"@ == seq!['}']) by {
        reveal_strlit("}");
        assert("}"@ =~= seq!['}']);
    }
    broadcast use append_right;

}

proof fn text_choice_denotes(text: Seq<char>, reason: Seq<char>)
    ensures
        crate::json_laws::denotes(completion_choice(text, reason), text_choice_value(text, reason)),
{
    let rv = crate::json::JsonView::Str(reason);
    let tv = crate::json::JsonView::Str(text);
    crate::json_laws::string_denotes(text);
    crate::json_laws::string_denotes(reason);
    let tr = crate::json::escaped(reason);
    let c1 = crate::json_laws::entry("finish_reason"@, tr);
    let q1 = seq![("finish_reason"@, rv)];
    crate::json_laws::one_member("finish_reason"@, tr, rv);
    let tt = crate::json::escaped(text);
    let c2 = crate::json_laws::entry("text"@, tt) + (seq![','] + c1);
    let q2 = seq![("text"@, tv)] + q1;
    crate::json_laws::one_more_member("text"@, tt, tv, c1, q1);
    crate::json_laws::closed_object_denotes(c2, q2);
    assert(q2 =~= text_choice_value(text, reason)->Obj_0);
}

#[verifier::rlimit(50)]
proof fn completion_denotes(
    id: Seq<char>,
    text: Seq<char>,
    reason: Seq<char>,
    prompt_tokens: nat,
    generated: nat,
    per_second: u32,
)
    requires
        per_second < 0x7f80_0000,
    ensures
        crate::json_laws::denotes(
            crate::server::completion_body(
                id,
                text,
                reason,
                crate::server::usage_text(prompt_tokens, generated, per_second),
            ),
            completion_value(id, text, reason, prompt_tokens, generated, per_second),
        ),
{
    let usage = crate::server::usage_text(prompt_tokens, generated, per_second);
    usage_is_inside(prompt_tokens, generated, per_second);
    text_choice_denotes(text, reason);
    let ct = completion_choice(text, reason);
    let choice = text_choice_value(text, reason);
    let u = usage_value(prompt_tokens, generated);
    let v = speed_value(per_second);
    let p0 = seq![("usage"@, u)] + seq![("tokens_per_second"@, v)];
    answer_is_inside(id, "text_completion"@, ct, choice, usage, p0);
    let inner = answer_inside(id, "text_completion"@, ct, usage);
    let p3 = answer_members(id, "text_completion"@, choice, p0);
    crate::json_laws::closed_object_denotes(inner, p3);
    answer_members_in_order(id, "text_completion"@, choice, u, v);
    let value = completion_value(id, text, reason, prompt_tokens, generated, per_second);
    assert(crate::json::JsonView::Obj(p3) == value);
    completion_text(id, text, reason, usage);
}

/// A completion reads back: a client finds the generated text, character by
/// character, and everything else that was meant, as long as the speed is finite.
pub proof fn completions_read_back(
    id: Seq<char>,
    text: Seq<char>,
    reason: Seq<char>,
    prompt_tokens: nat,
    generated: nat,
    per_second: u32,
)
    requires
        per_second < 0x7f80_0000,
    ensures
        crate::json::parsed(
            encode_utf8(
                crate::server::completion_body(
                    id,
                    text,
                    reason,
                    crate::server::usage_text(prompt_tokens, generated, per_second),
                ),
            ),
        ) == Ok::<crate::json::JsonView, Seq<char>>(
            completion_value(id, text, reason, prompt_tokens, generated, per_second),
        ),
{
    completion_denotes(id, text, reason, prompt_tokens, generated, per_second);
    crate::json_laws::denoted_value_is_read(
        crate::server::completion_body(
            id,
            text,
            reason,
            crate::server::usage_text(prompt_tokens, generated, per_second),
        ),
        completion_value(id, text, reason, prompt_tokens, generated, per_second),
    );
}

/// The message of a chat answer.
pub open spec fn message_value(text: Seq<char>) -> crate::json::JsonView {
    crate::json::JsonView::Obj(
        seq![
            ("role"@, crate::json::JsonView::Str("assistant"@)),
            ("content"@, crate::json::JsonView::Str(text)),
        ],
    )
}

/// The choice of a chat answer.
pub open spec fn choice_value(text: Seq<char>, reason: Seq<char>) -> crate::json::JsonView {
    crate::json::JsonView::Obj(
        seq![
            ("index"@, natural(0)),
            ("message"@, message_value(text)),
            ("finish_reason"@, crate::json::JsonView::Str(reason)),
        ],
    )
}

/// What a chat answer says.
pub open spec fn chat_value(
    id: Seq<char>,
    text: Seq<char>,
    reason: Seq<char>,
    prompt_tokens: nat,
    generated: nat,
    per_second: u32,
) -> crate::json::JsonView {
    crate::json::JsonView::Obj(
        seq![
            ("id"@, crate::json::JsonView::Str(id)),
            ("object"@, crate::json::JsonView::Str("chat.completion"@)),
            ("choices"@, crate::json::JsonView::Arr(seq![choice_value(text, reason)])),
            ("usage"@, usage_value(prompt_tokens, generated)),
            ("tokens_per_second"@, speed_value(per_second)),
        ],
    )
}

spec fn chat_message(text: Seq<char>) -> Seq<char> {
    seq!['{'] + (crate::json_laws::entry("role"@, crate::json::escaped("assistant"@)) + (seq![',']
        + crate::json_laws::entry("content"@, crate::json::escaped(text)))) + seq!['}']
}

spec fn chat_choice(text: Seq<char>, reason: Seq<char>) -> Seq<char> {
    let c1 = crate::json_laws::entry("finish_reason"@, crate::json::escaped(reason));
    let c2 = crate::json_laws::entry("message"@, chat_message(text)) + (seq![','] + c1);
    seq!['{'] + (crate::json_laws::entry("index"@, crate::text::decimal(0)) + (seq![','] + c2))
        + seq!['}']
}

proof fn message_denotes(text: Seq<char>)
    ensures
        crate::json_laws::denotes(chat_message(text), message_value(text)),
{
    let s = |t: Seq<char>| crate::json::JsonView::Str(t);
    crate::json_laws::string_denotes("assistant"@);
    crate::json_laws::string_denotes(text);
    let tc = crate::json::escaped(text);
    let g1 = crate::json_laws::entry("content"@, tc);
    let h1 = seq![("content"@, s(text))];
    crate::json_laws::one_member("content"@, tc, s(text));
    let ta = crate::json::escaped("assistant"@);
    let g2 = crate::json_laws::entry("role"@, ta) + (seq![','] + g1);
    let h2 = seq![("role"@, s("assistant"@))] + h1;
    crate::json_laws::one_more_member("role"@, ta, s("assistant"@), g1, h1);
    crate::json_laws::closed_object_denotes(g2, h2);
    assert(h2 =~= message_value(text)->Obj_0);
}

proof fn choice_denotes(text: Seq<char>, reason: Seq<char>)
    ensures
        crate::json_laws::denotes(chat_choice(text, reason), choice_value(text, reason)),
{
    let rv = crate::json::JsonView::Str(reason);
    crate::json_laws::string_denotes(reason);
    message_denotes(text);
    crate::json_laws::natural_denotes(0);
    let tr = crate::json::escaped(reason);
    let c1 = crate::json_laws::entry("finish_reason"@, tr);
    let q1 = seq![("finish_reason"@, rv)];
    crate::json_laws::one_member("finish_reason"@, tr, rv);
    let tm = chat_message(text);
    let c2 = crate::json_laws::entry("message"@, tm) + (seq![','] + c1);
    let q2 = seq![("message"@, message_value(text))] + q1;
    crate::json_laws::one_more_member("message"@, tm, message_value(text), c1, q1);
    let t0 = crate::text::decimal(0);
    let c3 = crate::json_laws::entry("index"@, t0) + (seq![','] + c2);
    let q3 = seq![("index"@, natural(0))] + q2;
    crate::json_laws::one_more_member("index"@, t0, natural(0), c2, q2);
    crate::json_laws::closed_object_denotes(c3, q3);
    assert(q3 =~= choice_value(text, reason)->Obj_0);
}

#[verifier::rlimit(50)]
proof fn chat_text(id: Seq<char>, text: Seq<char>, reason: Seq<char>, usage: Seq<char>)
    ensures
        crate::server::chat_body(id, text, reason, usage) == seq!['{'] + answer_inside(
            id,
            "chat.completion"@,
            chat_choice(text, reason),
            usage,
        ) + seq!['}'],
{
    id_literal();
    chat_object_literal();
    chat_reason_literal();
    choices_literal();
    assert("}"@ == seq!['}']) by {
        reveal_strlit("}");
        assert("}"@ =~= seq!['}']);
    }
    broadcast use append_right;

}

#[verifier::rlimit(50)]
proof fn chat_answer_denotes(
    id: Seq<char>,
    text: Seq<char>,
    reason: Seq<char>,
    prompt_tokens: nat,
    generated: nat,
    per_second: u32,
)
    requires
        per_second < 0x7f80_0000,
    ensures
        crate::json_laws::denotes(
            crate::server::chat_body(
                id,
                text,
                reason,
                crate::server::usage_text(prompt_tokens, generated, per_second),
            ),
            chat_value(id, text, reason, prompt_tokens, generated, per_second),
        ),
{
    let usage = crate::server::usage_text(prompt_tokens, generated, per_second);
    usage_is_inside(prompt_tokens, generated, per_second);
    choice_denotes(text, reason);
    let ct = chat_choice(text, reason);
    let choice = choice_value(text, reason);
    let u = usage_value(prompt_tokens, generated);
    let v = speed_value(per_second);
    let p0 = seq![("usage"@, u)] + seq![("tokens_per_second"@, v)];
    answer_is_inside(id, "chat.completion"@, ct, choice, usage, p0);
    let inner = answer_inside(id, "chat.completion"@, ct, usage);
    let p3 = answer_members(id, "chat.completion"@, choice, p0);
    crate::json_laws::closed_object_denotes(inner, p3);
    answer_members_in_order(id, "chat.completion"@, choice, u, v);
    let value = chat_value(id, text, reason, prompt_tokens, generated, per_second);
    assert(crate::json::JsonView::Obj(p3) == value);
    chat_text(id, text, reason, usage);
}

/// A chat answer reads back: a client finds the generated text, character by
/// character, and everything else that was meant, as long as the speed is finite.
pub proof fn chat_answers_read_back(
    id: Seq<char>,
    text: Seq<char>,
    reason: Seq<char>,
    prompt_tokens: nat,
    generated: nat,
    per_second: u32,
)
    requires
        per_second < 0x7f80_0000,
    ensures
        crate::json::parsed(
            encode_utf8(
                crate::server::chat_body(
                    id,
                    text,
                    reason,
                    crate::server::usage_text(prompt_tokens, generated, per_second),
                ),
            ),
        ) == Ok::<crate::json::JsonView, Seq<char>>(
            chat_value(id, text, reason, prompt_tokens, generated, per_second),
        ),
{
    chat_answer_denotes(id, text, reason, prompt_tokens, generated, per_second);
    crate::json_laws::denoted_value_is_read(
        crate::server::chat_body(
            id,
            text,
            reason,
            crate::server::usage_text(prompt_tokens, generated, per_second),
        ),
        chat_value(id, text, reason, prompt_tokens, generated, per_second),
    );
}

// ── configuration ──

/// A float of the configuration.
pub open spec fn float_value(v: Option<u32>) -> crate::json::JsonView {
    match v {
        Some(x) => crate::json_laws::shown_f32(x),
        None => crate::json::JsonView::Null,
    }
}

/// A size of the configuration.
pub open spec fn size_value(v: Option<usize>) -> crate::json::JsonView {
    match v {
        Some(n) => natural(n as nat),
        None => crate::json::JsonView::Null,
    }
}

/// What the configuration says.
pub open spec fn config_value(
    host: Seq<char>,
    port: u16,
    g: crate::config::GenerateDefaults,
) -> crate::json::JsonView {
    crate::json::JsonView::Obj(
        seq![
            (
                "server"@,
                crate::json::JsonView::Obj(
                    seq![
                        ("host"@, crate::json::JsonView::Str(host)),
                        ("port"@, natural(port as nat)),
                    ],
                ),
            ),
            (
                "generate"@,
                crate::json::JsonView::Obj(
                    seq![
                        (
                            "temperature"@,
                            crate::json_laws::shown_f32(
                                crate::server::temperature_or_default(g.temperature),
                            ),
                        ),
                        ("top_p"@, float_value(g.top_p)),
                        ("top_k"@, size_value(g.top_k)),
                        (
                            "max_tokens"@,
                            natural(crate::server::tokens_or_default(g.max_tokens) as nat),
                        ),
                    ],
                ),
            ),
        ],
    )
}

/// Finite, if it is there.
pub open spec fn finite_if_any(v: Option<u32>) -> bool {
    v matches Some(x) ==> x as nat % 0x8000_0000 < 0x7f80_0000
}

spec fn server_text(host: Seq<char>, port: u16) -> Seq<char> {
    seq!['{'] + (crate::json_laws::entry("host"@, crate::json::escaped(host)) + (seq![',']
        + crate::json_laws::entry("port"@, crate::text::decimal(port as nat)))) + seq!['}']
}

spec fn server_value(host: Seq<char>, port: u16) -> crate::json::JsonView {
    crate::json::JsonView::Obj(
        seq![("host"@, crate::json::JsonView::Str(host)), ("port"@, natural(port as nat))],
    )
}

spec fn generate_text(g: crate::config::GenerateDefaults) -> Seq<char> {
    let temperature = crate::server::temperature_or_default(g.temperature);
    let n = crate::server::tokens_or_default(g.max_tokens) as nat;
    let g1 = crate::json_laws::entry("max_tokens"@, crate::text::decimal(n));
    let g2 = crate::json_laws::entry("top_k"@, crate::server::size_or_null(g.top_k)) + (seq![',']
        + g1);
    let g3 = crate::json_laws::entry("top_p"@, crate::server::float_or_null(g.top_p)) + (seq![',']
        + g2);
    seq!['{'] + (crate::json_laws::entry(
        "temperature"@,
        crate::shortest::display_f32(temperature),
    ) + (seq![','] + g3)) + seq!['}']
}

spec fn generate_value(g: crate::config::GenerateDefaults) -> crate::json::JsonView {
    crate::json::JsonView::Obj(
        seq![
            (
                "temperature"@,
                crate::json_laws::shown_f32(crate::server::temperature_or_default(g.temperature)),
            ),
            ("top_p"@, float_value(g.top_p)),
            ("top_k"@, size_value(g.top_k)),
            ("max_tokens"@, natural(crate::server::tokens_or_default(g.max_tokens) as nat)),
        ],
    )
}

proof fn server_denotes(host: Seq<char>, port: u16)
    ensures
        crate::json_laws::denotes(server_text(host, port), server_value(host, port)),
{
    crate::json_laws::string_denotes(host);
    crate::json_laws::natural_denotes(port as nat);
    let tp = crate::text::decimal(port as nat);
    let s1 = crate::json_laws::entry("port"@, tp);
    let r1 = seq![("port"@, natural(port as nat))];
    crate::json_laws::one_member("port"@, tp, natural(port as nat));
    let hv = crate::json::JsonView::Str(host);
    let th = crate::json::escaped(host);
    let s2 = crate::json_laws::entry("host"@, th) + (seq![','] + s1);
    let r2 = seq![("host"@, hv)] + r1;
    crate::json_laws::one_more_member("host"@, th, hv, s1, r1);
    crate::json_laws::closed_object_denotes(s2, r2);
    assert(r2 =~= server_value(host, port)->Obj_0);
}

#[verifier::rlimit(50)]
proof fn generate_denotes(g: crate::config::GenerateDefaults)
    requires
        finite_if_any(g.temperature),
        finite_if_any(g.top_p),
    ensures
        crate::json_laws::denotes(generate_text(g), generate_value(g)),
{
    crate::json_laws::literals_denote();
    let temperature = crate::server::temperature_or_default(g.temperature);
    crate::json_laws::f32_denotes(temperature);
    if let Some(p) = g.top_p {
        crate::json_laws::f32_denotes(p);
    }
    if let Some(k) = g.top_k {
        crate::json_laws::natural_denotes(k as nat);
    }
    let n = crate::server::tokens_or_default(g.max_tokens) as nat;
    crate::json_laws::natural_denotes(n);
    let tn = crate::text::decimal(n);
    let g1 = crate::json_laws::entry("max_tokens"@, tn);
    let q1 = seq![("max_tokens"@, natural(n))];
    crate::json_laws::one_member("max_tokens"@, tn, natural(n));
    let tk = crate::server::size_or_null(g.top_k);
    let g2 = crate::json_laws::entry("top_k"@, tk) + (seq![','] + g1);
    let q2 = seq![("top_k"@, size_value(g.top_k))] + q1;
    crate::json_laws::one_more_member("top_k"@, tk, size_value(g.top_k), g1, q1);
    let tq = crate::server::float_or_null(g.top_p);
    let g3 = crate::json_laws::entry("top_p"@, tq) + (seq![','] + g2);
    let q3 = seq![("top_p"@, float_value(g.top_p))] + q2;
    crate::json_laws::one_more_member("top_p"@, tq, float_value(g.top_p), g2, q2);
    let tt = crate::shortest::display_f32(temperature);
    let tv = crate::json_laws::shown_f32(temperature);
    let g4 = crate::json_laws::entry("temperature"@, tt) + (seq![','] + g3);
    let q4 = seq![("temperature"@, tv)] + q3;
    crate::json_laws::one_more_member("temperature"@, tt, tv, g3, q3);
    crate::json_laws::closed_object_denotes(g4, q4);
    assert(q4 =~= generate_value(g)->Obj_0);
}

#[verifier::rlimit(50)]
proof fn config_text(host: Seq<char>, port: u16, g: crate::config::GenerateDefaults)
    ensures
        crate::server::config_body(host, port, g) == seq!['{'] + (crate::json_laws::entry(
            "server"@,
            server_text(host, port),
        ) + (seq![','] + crate::json_laws::entry("generate"@, generate_text(g)))) + seq!['}'],
{
    host_literal();
    port_literal();
    temperature_literal();
    top_p_literal();
    top_k_literal();
    max_tokens_literal();
    assert("}}"@ == seq!['}'] + seq!['}']) by {
        reveal_strlit("}}");
        assert("}}"@ =~= seq!['}'] + seq!['}']);
    }
    broadcast use append_right;

}

/// The configuration reads back, as long as its numbers are finite.
pub proof fn configuration_reads_back(
    host: Seq<char>,
    port: u16,
    g: crate::config::GenerateDefaults,
)
    requires
        finite_if_any(g.temperature),
        finite_if_any(g.top_p),
    ensures
        crate::json::parsed(encode_utf8(crate::server::config_body(host, port, g))) == Ok::<
            crate::json::JsonView,
            Seq<char>,
        >(config_value(host, port, g)),
{
    server_denotes(host, port);
    generate_denotes(g);
    let ts = server_text(host, port);
    let tg = generate_text(g);
    let m1 = crate::json_laws::entry("generate"@, tg);
    let p1 = seq![("generate"@, generate_value(g))];
    crate::json_laws::one_member("generate"@, tg, generate_value(g));
    let m2 = crate::json_laws::entry("server"@, ts) + (seq![','] + m1);
    let p2 = seq![("server"@, server_value(host, port))] + p1;
    crate::json_laws::one_more_member("server"@, ts, server_value(host, port), m1, p1);
    crate::json_laws::closed_object_denotes(m2, p2);
    let value = config_value(host, port, g);
    assert(p2 =~= value->Obj_0);
    config_text(host, port, g);
    crate::json_laws::denoted_value_is_read(crate::server::config_body(host, port, g), value);
}

// ── precedence ──

/// What a request states itself is taken from it, whatever the defaults are.
pub proof fn request_decides(
    a: crate::config::GenerateDefaults,
    b: crate::config::GenerateDefaults,
    j: crate::json::JsonView,
)
    requires
        j.get("temperature"@) is Some,
        j.get("top_p"@) is Some,
        j.get("top_k"@) is Some,
        j.get("max_tokens"@) is Some,
    ensures
        crate::server::request_params(a, j) == crate::server::request_params(b, j),
{
}

/// What a request leaves out is taken from the defaults.
pub proof fn silent_request_takes_defaults(
    base: crate::config::GenerateDefaults,
    j: crate::json::JsonView,
)
    requires
        j.get("temperature"@) is None,
        j.get("top_p"@) is None,
        j.get("top_k"@) is None,
        j.get("max_tokens"@) is None,
    ensures
        crate::server::request_params(base, j) matches Ok(p) ==> {
            &&& p.temperature == crate::server::temperature_or_default(base.temperature)
            &&& p.top_p == base.top_p
            &&& p.top_k == base.top_k
            &&& p.max_tokens == crate::server::tokens_or_default(base.max_tokens)
        },
{
}

/// The query of a path never changes where a request goes.
pub proof fn query_does_not_route(method: Seq<char>, path: Seq<char>, query: Seq<char>)
    requires
        crate::text::position(path, '?') == path.len(),
    ensures
        crate::server::route_of(method, path + (seq!['?'] + query)) == crate::server::route_of(
            method,
            path,
        ),
{
    position_stops(path, query);
    assert((path + (seq!['?'] + query)).take(path.len() as int) =~= path.take(path.len() as int));
}

proof fn position_stops(path: Seq<char>, query: Seq<char>)
    requires
        crate::text::position(path, '?') == path.len(),
    ensures
        crate::text::position(path + (seq!['?'] + query), '?') == path.len(),
    decreases path.len(),
{
    let whole = path + (seq!['?'] + query);
    if path.len() == 0 {
        assert(whole[0] == '?');
    } else {
        assert(whole[0] == path[0]);
        position_is_bounded(path.drop_first());
        assert(whole.drop_first() =~= path.drop_first() + (seq!['?'] + query));
        position_stops(path.drop_first(), query);
    }
}

proof fn position_is_bounded(s: Seq<char>)
    ensures
        0 <= crate::text::position(s, '?') <= s.len(),
    decreases s.len(),
{
    if s.len() > 0 && s[0] != '?' {
        position_is_bounded(s.drop_first());
    }
}

} // verus!
