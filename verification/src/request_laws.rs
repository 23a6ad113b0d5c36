//! What requests get: laws of routing, parameters, prompts and conversations.

use vstd::prelude::*;

verus! {

// ── routing ──

/// Each endpoint answers one method and one path, and everything else is unknown.
pub proof fn endpoints_have_one_method_and_path(method: Seq<char>, path: Seq<char>)
    requires
        !path.contains('?'),
    ensures
        crate::server::route_of(method, path) == crate::server::Route::Health <==> method == "GET"@ && path
            == "/health"@,
        crate::server::route_of(method, path) == crate::server::Route::GetConfig <==> method == "GET"@ && path
            == "/v1/config"@,
        crate::server::route_of(method, path) == crate::server::Route::PatchConfig <==> method == "POST"@ && path
            == "/v1/config"@,
        crate::server::route_of(method, path) == crate::server::Route::LoadModel <==> method == "POST"@ && path
            == "/v1/model"@,
        crate::server::route_of(method, path) == crate::server::Route::Chat <==> method == "POST"@ && path
            == "/v1/chat/completions"@,
        crate::server::route_of(method, path) == crate::server::Route::Completion <==> method == "POST"@ && path
            == "/v1/completions"@,
{
    crate::text::splits_join(path, '?');
    no_query(path);
    assert(path.take(path.len() as int) =~= path);
    reveal_strlit("GET");
    reveal_strlit("POST");
    reveal_strlit("/health");
    reveal_strlit("/v1/config");
    reveal_strlit("/v1/model");
    reveal_strlit("/v1/chat/completions");
    reveal_strlit("/v1/completions");
    assert("GET"@[0] != "POST"@[0]);
    assert("/health"@.len() == 7 && "/v1/config"@.len() == 10 && "/v1/model"@.len() == 9);
    assert("/v1/chat/completions"@.len() == 20 && "/v1/completions"@.len() == 15);
}

proof fn no_query(path: Seq<char>)
    requires
        !path.contains('?'),
    ensures
        crate::text::position(path, '?') == path.len(),
    decreases path.len(),
{
    if path.len() > 0 {
        let rest = path.drop_first();
        assert(path.contains(path[0]));
        assert(!rest.contains('?')) by {
            if rest.contains('?') {
                let i = choose|i: int| 0 <= i < rest.len() && rest[i] == '?';
                assert(path[i + 1] == '?');
            }
        }
        no_query(rest);
    }
}

/// There is an endpoint with the method and the path.
pub open spec fn known_endpoint(method: Seq<char>, path: Seq<char>) -> bool {
    ||| method == "GET"@ && (path == "/health"@ || path == "/v1/config"@)
    ||| method == "POST"@ && (path == "/v1/config"@ || path == "/v1/model"@ || path
        == "/v1/completions"@ || path == "/v1/chat/completions"@)
}

/// Only the endpoint of a thing does it: jobs of completions and of chats, changes of the
/// defaults and new models each come from a post to their own path. What has no endpoint
/// is not found.
pub proof fn actions_come_from_their_endpoint(
    inner: crate::server::Inner,
    defaults: crate::config::GenerateDefaults,
    host: Seq<char>,
    port: u16,
    req: crate::http::Request,
    a: crate::server::Action,
)
    requires
        crate::server::is_action(inner, defaults, host, port, req, a),
        !req.path@.contains('?'),
    ensures
        a is Complete ==> req.method@ == "POST"@ && req.path@ == "/v1/completions"@,
        a is Chat ==> req.method@ == "POST"@ && req.path@ == "/v1/chat/completions"@,
        a is Configure ==> req.method@ == "POST"@ && req.path@ == "/v1/config"@,
        a is Load ==> req.method@ == "POST"@ && req.path@ == "/v1/model"@,
        !known_endpoint(req.method@, req.path@) ==> (a matches crate::server::Action::Answer(x)
            && x.status == 404),
        req.method@ == "GET"@ && known_endpoint(req.method@, req.path@) ==> (
        a matches crate::server::Action::Answer(x) && x.status == 200),
{
    endpoints_have_one_method_and_path(req.method@, req.path@);
    reveal_strlit("GET");
    reveal_strlit("POST");
    assert("GET"@[0] != "POST"@[0]);
}

// ── parameters ──

/// Each parameter of a request is the one that it states under its own name; what it
/// leaves out comes from the defaults, and where these are open it is 256 tokens and
/// temperature zero.
pub proof fn requests_take_their_keys(
    base: crate::config::GenerateDefaults,
    j: crate::json::JsonView,
    p: crate::generate::ParamsView,
    n: u64,
)
    requires
        crate::server::request_params(base, j) == Ok::<crate::generate::ParamsView, Seq<char>>(p),
    ensures
        j.get("temperature"@) == Some(crate::json::JsonView::Num(n)) ==> p.temperature
            == crate::decimal::narrowed(n) as u32,
        j.get("temperature"@) is None && base.temperature is Some ==> Some(p.temperature)
            == base.temperature,
        j.get("temperature"@) is None && base.temperature is None ==> p.temperature == 0,
        j.get("top_p"@) == Some(crate::json::JsonView::Num(n)) ==> p.top_p == Some(
            crate::decimal::narrowed(n) as u32,
        ),
        j.get("top_p"@) is None ==> p.top_p == base.top_p,
        j.get("top_k"@) == Some(crate::json::JsonView::Num(n)) ==> p.top_k == Some(
            crate::decimal::clamped(n, usize::MAX as nat) as usize,
        ),
        j.get("top_k"@) is None ==> p.top_k == base.top_k,
        j.get("max_tokens"@) == Some(crate::json::JsonView::Num(n)) ==> p.max_tokens == crate::decimal::clamped(
            n,
            usize::MAX as nat,
        ),
        j.get("max_tokens"@) is None && base.max_tokens is Some ==> Some(p.max_tokens)
            == base.max_tokens,
        j.get("max_tokens"@) is None && base.max_tokens is None ==> p.max_tokens == 256,
        j.get("seed"@) == Some(crate::json::JsonView::Num(n)) ==> p.seed == Some(
            crate::decimal::clamped(n, u64::MAX as nat) as u64,
        ),
        j.get("seed"@) is None ==> p.seed is None,
        p.extra_eos.len() == 0,
{
}

/// The stop strings are those that the request lists, in their order; a single string is a
/// list of one.
pub proof fn requests_list_their_stops(
    base: crate::config::GenerateDefaults,
    j: crate::json::JsonView,
    p: crate::generate::ParamsView,
    s: Seq<char>,
    items: Seq<crate::json::JsonView>,
)
    requires
        crate::server::request_params(base, j) == Ok::<crate::generate::ParamsView, Seq<char>>(p),
    ensures
        j.get("stop"@) is None ==> p.stop.len() == 0,
        j.get("stop"@) == Some(crate::json::JsonView::Str(s)) ==> p.stop.len() == 1 && p.stop[0] == s,
        j.get("stop"@) == Some(crate::json::JsonView::Arr(items)) ==> {
            &&& p.stop.len() == items.len()
            &&& forall|i: int|
                0 <= i < items.len() ==> #[trigger] items[i] == crate::json::JsonView::Str(p.stop[i])
        },
{
}

/// A parameter of the wrong type is refused; one that is stated well is not.
pub proof fn requests_are_refused_for_wrong_types(
    base: crate::config::GenerateDefaults,
    j: crate::json::JsonView,
)
    ensures
        crate::server::request_params(base, j) is Ok <==> {
            &&& j.get("temperature"@) matches Some(v) ==> v is Num
            &&& j.get("top_p"@) matches Some(v) ==> v is Num
            &&& j.get("top_k"@) matches Some(v) ==> v is Num
            &&& j.get("max_tokens"@) matches Some(v) ==> v is Num
            &&& j.get("seed"@) matches Some(v) ==> v is Num
            &&& j.get("stop"@) matches Some(v) ==> v is Str || (v matches crate::json::JsonView::Arr(items)
                && forall|i: int| 0 <= i < items.len() ==> (#[trigger] items[i]) is Str)
        },
{
}

// ── jobs ──

/// A completion continues the text under "prompt", from the beginning of a sequence, with
/// the parameters of the request.
pub proof fn completions_continue_the_prompt(
    t: crate::tokenizer::TokenizerView,
    base: crate::config::GenerateDefaults,
    body: Seq<u8>,
    job: crate::server::Job,
)
    requires
        crate::server::is_completion(t, base, body, Ok(job)),
    ensures
        exists|j: crate::json::JsonView, prompt: Seq<char>|
            {
                &&& vstd::utf8::valid_utf8(body)
                &&& crate::server::body_value(body) == Ok::<crate::json::JsonView, Seq<char>>(j)
                &&& #[trigger] j.get("prompt"@) == Some(crate::json::JsonView::Str(prompt))
                &&& #[trigger] crate::tokenizer::encoded_with_bos(t, prompt) == Ok::<
                    Seq<u32>,
                    crate::tokenizer::TokenizerErrorView,
                >(job.ids@)
                &&& crate::server::request_params(base, j) == Ok::<
                    crate::generate::ParamsView,
                    Seq<char>,
                >(job.params@)
            },
{
    let j = crate::server::body_value(body)->Ok_0;
    let prompt = crate::server::prompt_in(j)->Ok_0;
    assert(j.get("prompt"@) == Some(crate::json::JsonView::Str(prompt)));
}

/// The messages of a conversation are those under "messages", in their order, each with
/// its own role and content.
pub proof fn messages_keep_their_order(
    j: crate::json::JsonView,
    messages: Seq<crate::chat::Message>,
    items: Seq<crate::json::JsonView>,
)
    requires
        crate::server::messages_in(j) == Ok::<Seq<crate::chat::Message>, Seq<char>>(messages),
        j.get("messages"@) == Some(crate::json::JsonView::Arr(items)),
    ensures
        messages.len() == items.len() > 0,
        forall|i: int|
            0 <= i < items.len() ==> {
                &&& (#[trigger] items[i]).get("role"@) == Some(crate::json::JsonView::Str(messages[i].0))
                &&& items[i].get("content"@) == Some(crate::json::JsonView::Str(messages[i].1))
                &&& messages[i].0.len() > 0
                &&& messages[i].1.len() > 0
            },
{
    assert forall|i: int| 0 <= i < items.len() implies {
        &&& (#[trigger] items[i]).get("role"@) == Some(crate::json::JsonView::Str(messages[i].0))
        &&& items[i].get("content"@) == Some(crate::json::JsonView::Str(messages[i].1))
        &&& messages[i].0.len() > 0
        &&& messages[i].1.len() > 0
    } by {
        assert(crate::server::part_of(items[i], "role"@).len() > 0);
        assert(messages[i] == (
            crate::server::part_of(items[i], "role"@),
            crate::server::part_of(items[i], "content"@),
        ));
    }
}

/// The ids that end a turn are those of the listed tokens that the vocabulary has.
pub proof fn known_tokens_give_their_ids(
    t: crate::tokenizer::TokenizerView,
    tokens: Seq<Seq<char>>,
    id: u32,
)
    ensures
        crate::server::known_ids(t, tokens).contains(id) <==> exists|k: int|
            {
                &&& 0 <= k < tokens.len()
                &&& crate::tokenizer::ids_of(t.vocab).contains_pair(#[trigger] tokens[k], id)
            },
    decreases tokens.len(),
{
    if tokens.len() > 0 {
        let ids = crate::tokenizer::ids_of(t.vocab);
        let first = tokens.drop_last();
        let before = crate::server::known_ids(t, first);
        let all = crate::server::known_ids(t, tokens);
        known_tokens_give_their_ids(t, first, id);
        if all.contains(id) {
            let i = choose|i: int| 0 <= i < all.len() && all[i] == id;
            if i < before.len() {
                assert(before[i] == id);
                let k = choose|k: int|
                    0 <= k < first.len() && ids.contains_pair(#[trigger] first[k], id);
                assert(ids.contains_pair(tokens[k], id));
            } else {
                assert(ids.contains_pair(tokens[tokens.len() - 1], id));
            }
        }
        if exists|k: int| 0 <= k < tokens.len() && ids.contains_pair(#[trigger] tokens[k], id) {
            let k = choose|k: int|
                0 <= k < tokens.len() && ids.contains_pair(#[trigger] tokens[k], id);
            if k < first.len() {
                assert(ids.contains_pair(first[k], id));
                let i = choose|i: int| 0 <= i < before.len() && before[i] == id;
                assert(all[i] == id);
            } else {
                assert(all[all.len() - 1] == id);
            }
        }
    }
}

/// A chat continues its conversation as the template renders it; the tokens that close a
/// turn end the generation, and the other parameters are those of the request.
pub proof fn chats_continue_the_conversation(
    t: crate::tokenizer::TokenizerView,
    format: crate::chat::Format,
    base: crate::config::GenerateDefaults,
    body: Seq<u8>,
    job: crate::server::Job,
    id: u32,
)
    requires
        crate::server::is_chat(t, format, base, body, Ok(job)),
    ensures
        exists|j: crate::json::JsonView, messages: Seq<crate::chat::Message>|
            {
                &&& crate::server::body_value(body) == Ok::<crate::json::JsonView, Seq<char>>(j)
                &&& #[trigger] crate::server::messages_in(j) == Ok::<
                    Seq<crate::chat::Message>,
                    Seq<char>,
                >(messages)
                &&& crate::tokenizer::encoded_with_bos(
                    t,
                    #[trigger] crate::chat::rendered(format, messages),
                ) == Ok::<Seq<u32>, crate::tokenizer::TokenizerErrorView>(job.ids@)
                &&& crate::server::request_params(base, j) == Ok::<
                    crate::generate::ParamsView,
                    Seq<char>,
                >(crate::generate::ParamsView { extra_eos: Seq::empty(), ..job.params@ })
            },
        format is ChatML ==> (job.params@.extra_eos.contains(id)
            <==> crate::tokenizer::ids_of(t.vocab).contains_pair("<|im_end|>"@, id)),
        format is Llama3 ==> (job.params@.extra_eos.contains(id)
            <==> crate::tokenizer::ids_of(t.vocab).contains_pair("<|eot_id|>"@, id)
            || crate::tokenizer::ids_of(t.vocab).contains_pair("<|end_of_text|>"@, id)),
{
    let j = crate::server::body_value(body)->Ok_0;
    let messages = crate::server::messages_in(j)->Ok_0;
    let params = crate::server::request_params(base, j)->Ok_0;
    let prompt = crate::chat::rendered(format, messages);
    let own = crate::generate::ParamsView { extra_eos: Seq::empty(), ..job.params@ };
    assert(params.extra_eos =~= Seq::empty());
    assert(own == params);
    assert(crate::server::messages_in(j) == Ok::<Seq<crate::chat::Message>, Seq<char>>(messages));
    let closers = format.closers();
    let ids = crate::tokenizer::ids_of(t.vocab);
    known_tokens_give_their_ids(t, closers, id);
    assert(format is ChatML ==> closers.len() == 1 && closers[0] == "<|im_end|>"@);
    assert(format is Llama3 ==> closers.len() == 2 && closers[0] == "<|eot_id|>"@ && closers[1]
        == "<|end_of_text|>"@);
}

/// A model is loaded from the text under "path", which is not empty.
pub proof fn models_are_asked_for_by_path(j: crate::json::JsonView, s: Seq<char>)
    ensures
        j.get("path"@) == Some(crate::json::JsonView::Str(s)) && s.len() > 0 ==> crate::server::path_in(j)
            == Ok::<Seq<char>, Seq<char>>(s),
        crate::server::path_in(j) is Ok ==> (j.get("path"@) matches Some(crate::json::JsonView::Str(x))
            && x.len() > 0),
{
}

/// A change of the defaults stands under "generate", or at the root where there is no such
/// section; what it does not state stays as it was.
pub proof fn changes_stand_at_either_place(
    current: crate::config::GenerateDefaults,
    body: Seq<u8>,
    j: crate::json::JsonView,
    change: crate::config::GenerateDefaults,
    g: crate::json::JsonView,
)
    requires
        crate::server::body_value(body) == Ok::<crate::json::JsonView, Seq<char>>(j),
        crate::server::patch_of(body) == Ok::<crate::config::GenerateDefaults, Seq<char>>(change),
    ensures
        j.get("generate"@) == Some(g) ==> crate::config::GenerateDefaults::stated_in(g) == Ok::<
            crate::config::GenerateDefaults,
            Seq<char>,
        >(change),
        j.get("generate"@) is None ==> crate::config::GenerateDefaults::stated_in(j) == Ok::<
            crate::config::GenerateDefaults,
            Seq<char>,
        >(change),
        change.temperature is None ==> current.under(change).temperature == current.temperature,
        change.temperature is Some ==> current.under(change).temperature == change.temperature,
        change.top_p is None ==> current.under(change).top_p == current.top_p,
        change.top_p is Some ==> current.under(change).top_p == change.top_p,
        change.top_k is None ==> current.under(change).top_k == current.top_k,
        change.top_k is Some ==> current.under(change).top_k == change.top_k,
        change.max_tokens is None ==> current.under(change).max_tokens == current.max_tokens,
        change.max_tokens is Some ==> current.under(change).max_tokens == change.max_tokens,
{
}

} // verus!
