//! A minimal HTTP/1.1: requests with a Content-Length, JSON answers that close the
//! connection.
//!
//! [`Reader`] says what to read next and turns what was read into a request; it
//! does no reading itself.

use vstd::prelude::*;
use vstd::utf8::*;

use crate::text::{
    is_blank, parse_unsigned, push_decimal, same_but_for_case, split_once_char, split_words, trim,
};

verus! {

/// The largest body that is accepted, in bytes.
pub const MAX_BODY: usize = 4_194_304;

/// A request.
#[derive(Debug, Clone, PartialEq, Eq)]
pub struct Request {
    pub method: String,
    pub path: String,
    pub body: Vec<u8>,
}

/// Why there is no request.
#[derive(Debug, Clone, PartialEq, Eq)]
pub enum ParseError {
    /// A malformed request, to be answered.
    Bad(String),
    /// Nothing was asked, or the connection broke: close in silence.
    Closed,
}

// ── reading ──

/// What has been read of a request so far.
#[derive(Debug, Clone, PartialEq, Eq)]
enum Stage {
    /// Nothing.
    Start,
    /// The request line and some headers.
    Headers { method: String, path: String, length: usize },
    /// Everything but the body.
    Body { method: String, path: String, length: usize },
}

/// A request being read.
#[derive(Debug, Clone, PartialEq, Eq)]
pub struct Reader {
    stage: Stage,
}

/// What to do next.
#[derive(Debug, Clone, PartialEq, Eq)]
pub enum Next {
    /// Read a line, its end included, and give it to the reader.
    Line(Reader),
    /// Read exactly as many bytes and give them to the reader.
    Body(Reader, usize),
    /// The request is complete.
    Done(Request),
    /// There is no request.
    Failed(ParseError),
}

/// Mathematical view of [`Reader`].
pub enum StageView {
    Start,
    Headers { method: Seq<char>, path: Seq<char>, length: nat },
    Body { method: Seq<char>, path: Seq<char>, length: nat },
}

/// Mathematical view of [`Next`].
pub enum NextView {
    Line(StageView),
    Body(StageView, nat),
    Done { method: Seq<char>, path: Seq<char>, body: Seq<u8> },
    Bad(Seq<char>),
    Closed,
}

impl View for Reader {
    type V = StageView;

    closed spec fn view(&self) -> StageView {
        match self.stage {
            Stage::Start => StageView::Start,
            Stage::Headers { method, path, length } => StageView::Headers {
                method: method@,
                path: path@,
                length: length as nat,
            },
            Stage::Body { method, path, length } => StageView::Body {
                method: method@,
                path: path@,
                length: length as nat,
            },
        }
    }
}

impl View for Next {
    type V = NextView;

    open spec fn view(&self) -> NextView {
        match self {
            Next::Line(r) => NextView::Line(r@),
            Next::Body(r, n) => NextView::Body(r@, *n as nat),
            Next::Done(q) => NextView::Done { method: q.method@, path: q.path@, body: q.body@ },
            Next::Failed(ParseError::Bad(m)) => NextView::Bad(m@),
            Next::Failed(ParseError::Closed) => NextView::Closed,
        }
    }
}

/// A line ends the headers: it is blank, as it is at the end of the connection.
pub open spec fn ends_headers(line: Seq<char>) -> bool {
    crate::text::trim_start(line).len() == 0
}

/// What follows the request line.
pub open spec fn after_request_line(line: Seq<char>) -> NextView {
    let words = crate::text::words(line);
    if words.len() == 0 {
        NextView::Closed
    } else if words.len() == 1 {
        NextView::Bad("path mancante"@)
    } else {
        NextView::Line(StageView::Headers { method: words[0], path: words[1], length: 0 })
    }
}

/// The body length that a header line announces: none if it is another header, no
/// number if it announces none.
pub open spec fn announced(line: Seq<char>) -> Option<Option<nat>> {
    match crate::text::split_once(line, ':') {
        Some((name, value)) if crate::text::same_letters(name, "content-length"@) => Some(
            crate::text::unsigned_in(crate::text::trimmed(value), usize::MAX as nat),
        ),
        _ => None,
    }
}

/// What follows the headers.
pub open spec fn after_headers(method: Seq<char>, path: Seq<char>, length: nat) -> NextView {
    if length > MAX_BODY {
        NextView::Bad("body troppo grande: "@ + crate::text::decimal(length))
    } else if length == 0 {
        NextView::Done { method, path, body: Seq::empty() }
    } else {
        NextView::Body(StageView::Body { method, path, length }, length)
    }
}

/// What follows a header line; the last announcement of a length counts.
pub open spec fn after_header(
    method: Seq<char>,
    path: Seq<char>,
    length: nat,
    line: Seq<char>,
) -> NextView {
    if ends_headers(line) {
        after_headers(method, path, length)
    } else {
        match announced(line) {
            None => NextView::Line(StageView::Headers { method, path, length }),
            Some(Some(n)) => NextView::Line(StageView::Headers { method, path, length: n }),
            Some(None) => NextView::Bad("content-length"@),
        }
    }
}

/// What follows a line, or the failure to read one.
pub open spec fn after_line(stage: StageView, line: Option<Seq<char>>) -> NextView {
    match (stage, line) {
        (StageView::Start, Some(l)) => after_request_line(l),
        (StageView::Headers { method, path, length }, Some(l)) => after_header(
            method,
            path,
            length,
            l,
        ),
        _ => NextView::Closed,
    }
}

/// What follows the body, or the failure to read it whole.
pub open spec fn after_body(stage: StageView, body: Option<Seq<u8>>) -> NextView {
    match (stage, body) {
        (StageView::Body { method, path, length }, Some(b)) if b.len() == length => NextView::Done {
            method,
            path,
            body: b,
        },
        _ => NextView::Bad("body troncato"@),
    }
}

/// The characters of a line, if there is one.
pub open spec fn line_view(line: Option<&str>) -> Option<Seq<char>> {
    match line {
        Some(l) => Some(l@),
        None => None,
    }
}

/// The bytes of a body, if there is one.
pub open spec fn body_view(body: Option<Vec<u8>>) -> Option<Seq<u8>> {
    match body {
        Some(b) => Some(b@),
        None => None,
    }
}

impl Reader {
    /// A reader that waits for the request line.
    pub fn new() -> (r: Self)
        ensures
            r@ == StageView::Start,
    {
        Reader { stage: Stage::Start }
    }

    /// Takes a line, or none where reading failed.
    pub fn line(self, line: Option<&str>) -> (r: Next)
        ensures
            r@ == after_line(self@, line_view(line)),
    {
        let text = match line {
            None => {
                return Next::Failed(ParseError::Closed);
            },
            Some(l) => l,
        };
        match self.stage {
            Stage::Start => request_line(text),
            Stage::Headers { method, path, length } => header(method, path, length, text),
            Stage::Body { .. } => Next::Failed(ParseError::Closed),
        }
    }

    /// Takes the body, or none where it could not be read whole.
    pub fn body(self, body: Option<Vec<u8>>) -> (r: Next)
        ensures
            r@ == after_body(self@, body_view(body)),
    {
        if let Stage::Body { method, path, length } = self.stage {
            if let Some(b) = body {
                if b.len() == length {
                    return Next::Done(Request { method, path, body: b });
                }
            }
        }
        Next::Failed(ParseError::Bad("body troncato".to_owned()))
    }
}

fn request_line(text: &str) -> (r: Next)
    ensures
        r@ == after_request_line(text@),
{
    let words = split_words(text);
    if words.len() == 0 {
        return Next::Failed(ParseError::Closed);
    }
    if words.len() == 1 {
        return Next::Failed(ParseError::Bad("path mancante".to_owned()));
    }
    let method = words[0].as_str().to_owned();
    let path = words[1].as_str().to_owned();
    Next::Line(Reader { stage: Stage::Headers { method, path, length: 0 } })
}

fn header(method: String, path: String, length: usize, text: &str) -> (r: Next)
    ensures
        r@ == after_header(method@, path@, length as nat, text@),
{
    if is_blank(text) {
        return headers_done(method, path, length);
    }
    if let Some((name, value)) = split_once_char(text, ':') {
        if same_but_for_case(name.as_str(), "content-length") {
            return match parse_unsigned(trim(value.as_str()).as_str(), usize::MAX as u64) {
                Some(n) => Next::Line(
                    Reader { stage: Stage::Headers { method, path, length: n as usize } },
                ),
                None => Next::Failed(ParseError::Bad("content-length".to_owned())),
            };
        }
    }
    Next::Line(Reader { stage: Stage::Headers { method, path, length } })
}

fn headers_done(method: String, path: String, length: usize) -> (r: Next)
    ensures
        r@ == after_headers(method@, path@, length as nat),
{
    if length > MAX_BODY {
        let mut msg = "body troppo grande: ".to_owned();
        push_decimal(&mut msg, length as u64);
        return Next::Failed(ParseError::Bad(msg));
    }
    if length == 0 {
        return Next::Done(Request { method, path, body: Vec::new() });
    }
    Next::Body(Reader { stage: Stage::Body { method, path, length } }, length)
}

// ── answering ──

/// The head of an answer whose body has `length` bytes.
pub open spec fn head(status: u16, reason: Seq<char>, length: nat) -> Seq<char> {
    "HTTP/1.1 "@ + crate::text::decimal(status as nat) + " "@ + reason
        + "\r\nContent-Type: application/json\r\nContent-Length: "@ + crate::text::decimal(length)
        + "\r\nConnection: close\r\n\r\n"@
}

/// A whole answer.
pub fn respond_json(status: u16, reason: &str, body: &str) -> (r: String)
    ensures
        r@ == head(status, reason@, encode_utf8(body@).len()) + body@,
{
    let length = body.as_bytes().len();
    let mut out = "HTTP/1.1 ".to_owned();
    push_decimal(&mut out, status as u64);
    out.push_str(" ");
    out.push_str(reason);
    out.push_str("\r\nContent-Type: application/json\r\nContent-Length: ");
    push_decimal(&mut out, length as u64);
    out.push_str("\r\nConnection: close\r\n\r\n");
    out.push_str(body);
    out
}

// ── laws ──

/// The announced length of an answer is the number of bytes that follow its head.
pub proof fn answer_announces_its_length(status: u16, reason: Seq<char>, body: Seq<char>)
    ensures
        encode_utf8(head(status, reason, encode_utf8(body).len()) + body).len() == encode_utf8(
            head(status, reason, encode_utf8(body).len()),
        ).len() + encode_utf8(body).len(),
{
    crate::text::encoding_concatenates(head(status, reason, encode_utf8(body).len()), body);
}

/// What reading a list of lines leads to: up to the first that asks for no other.
pub open spec fn after_lines(stage: StageView, lines: Seq<Seq<char>>) -> NextView
    decreases lines.len(),
{
    if lines.len() == 0 {
        NextView::Line(stage)
    } else {
        match after_line(stage, Some(lines[0])) {
            NextView::Line(s) => after_lines(s, lines.drop_first()),
            other => other,
        }
    }
}

/// No request is ever given a body that is too large or not as long as announced.
pub proof fn bodies_are_bounded(stage: StageView, lines: Seq<Seq<char>>, body: Seq<u8>)
    ensures
        after_lines(stage, lines) matches NextView::Body(s, n) ==> n <= MAX_BODY && (after_body(
            s,
            Some(body),
        ) matches NextView::Done { body: b, .. } ==> b == body && b.len() == n),
        after_lines(stage, lines) matches NextView::Done { body: b, .. } ==> b.len() == 0,
    decreases lines.len(),
{
    if lines.len() > 0 {
        if let NextView::Line(s) = after_line(stage, Some(lines[0])) {
            bodies_are_bounded(s, lines.drop_first(), body);
        }
    }
}

/// Headers other than Content-Length change nothing, wherever they stand.
pub proof fn other_headers_are_ignored(
    method: Seq<char>,
    path: Seq<char>,
    length: nat,
    line: Seq<char>,
    rest: Seq<Seq<char>>,
)
    requires
        !ends_headers(line),
        announced(line) is None,
    ensures
        after_lines(StageView::Headers { method, path, length }, seq![line] + rest) == after_lines(
            StageView::Headers { method, path, length },
            rest,
        ),
{
    assert((seq![line] + rest).drop_first() =~= rest);
}

/// Of two announcements of a length, one right after the other, the last counts.
pub proof fn last_length_counts(
    method: Seq<char>,
    path: Seq<char>,
    length: nat,
    a: Seq<char>,
    b: Seq<char>,
    rest: Seq<Seq<char>>,
)
    requires
        !ends_headers(a),
        !ends_headers(b),
        announced(a) matches Some(n) && n is Some,
        announced(b) is Some,
    ensures
        after_lines(StageView::Headers { method, path, length }, seq![a, b] + rest) == after_lines(
            StageView::Headers { method, path, length },
            seq![b] + rest,
        ),
{
    let all = seq![a, b] + rest;
    assert(all.drop_first() =~= seq![b] + rest);
    assert((seq![b] + rest).drop_first() =~= rest);
    let n = announced(a)->Some_0->Some_0;
    let s = StageView::Headers { method, path, length: n };
    assert(after_line(StageView::Headers { method, path, length }, Some(a)) == NextView::Line(s));
    assert(all[0] == a);
    assert(after_lines(StageView::Headers { method, path, length }, all) == after_lines(
        s,
        seq![b] + rest,
    ));
    assert((seq![b] + rest)[0] == b);
    assert(after_line(s, Some(b)) == after_line(
        StageView::Headers { method, path, length },
        Some(b),
    ));
}

/// A request line names the method and the path, whatever follows them.
pub proof fn request_lines_name_method_and_path(
    method: Seq<char>,
    path: Seq<char>,
    rest: Seq<char>,
)
    requires
        method.len() > 0,
        path.len() > 0,
        forall|i: int| 0 <= i < method.len() ==> !crate::text::is_space(#[trigger] method[i]),
        forall|i: int| 0 <= i < path.len() ==> !crate::text::is_space(#[trigger] path[i]),
    ensures
        after_line(
            StageView::Start,
            Some(method + seq![' '] + (path + seq![' '] + rest)),
        ) == NextView::Line(StageView::Headers { method, path, length: 0 }),
{
    crate::text::words_are_separated_by_white_space(
        method,
        ' ',
        path + seq![' '] + rest,
    );
    crate::text::words_are_separated_by_white_space(path, ' ', rest);
    let words = seq![method] + (seq![path] + crate::text::words(rest));
    assert(words[0] == method && words[1] == path && words.len() >= 2);
}

/// The header that announces a length does so whatever white space stands around the
/// number.
pub proof fn lengths_are_announced(n: nat, before: Seq<char>, after: Seq<char>)
    requires
        n <= usize::MAX,
        forall|i: int| 0 <= i < before.len() ==> crate::text::is_space(#[trigger] before[i]),
        forall|i: int| 0 <= i < after.len() ==> crate::text::is_space(#[trigger] after[i]),
    ensures
        announced("content-length"@ + seq![':'] + (before + crate::text::decimal(n) + after)) == Some(
            Some(n),
        ),
        announced("Content-Length"@ + seq![':'] + (before + crate::text::decimal(n) + after)) == Some(
            Some(n),
        ),
{
    let d = crate::text::decimal(n);
    let value = before + d + after;
    crate::text::decimal_is_digits(n);
    assert('0' <= d[0] <= '9');
    assert('0' <= d[d.len() - 1] <= '9');
    crate::text::trimming_drops_white_space(before, d, after);
    crate::text::numerals_are_numbers(n, usize::MAX as nat);
    reveal_strlit("content-length");
    reveal_strlit("Content-Length");
    let a = "content-length"@;
    let b = "Content-Length"@;
    assert(!a.contains(':'));
    assert(!b.contains(':'));
    crate::text::joints_split(a, ':', value);
    crate::text::joints_split(b, ':', value);
    assert(crate::text::same_letters(a, a));
    assert(crate::text::same_letters(b, a)) by {
        assert forall|k: int| 0 <= k < b.len() implies crate::text::lower(#[trigger] b[k])
            == crate::text::lower(a[k]) by {}
    }
}

/// Bodies of up to four mebibytes are read, and larger ones refused. Without a body the
/// request is complete.
pub proof fn bodies_up_to_four_mebibytes(method: Seq<char>, path: Seq<char>, length: nat)
    ensures
        length == 0 ==> after_headers(method, path, length) == (NextView::Done {
            method,
            path,
            body: Seq::empty(),
        }),
        0 < length <= 4 * 1024 * 1024 ==> after_headers(method, path, length) == NextView::Body(
            StageView::Body { method, path, length },
            length,
        ),
        length > 4 * 1024 * 1024 ==> after_headers(method, path, length) is Bad,
{
}

/// The head of an answer states the status and, in a header of its own, the length.
pub proof fn heads_state_status_and_length(status: u16, reason: Seq<char>, length: nat)
    ensures
        exists|a: Seq<char>, b: Seq<char>|
            head(status, reason, length) == "HTTP/1.1 "@ + crate::text::decimal(status as nat)
                + #[trigger] (" "@ + a) + "\r\nContent-Length: "@ + crate::text::decimal(length)
                + #[trigger] ("\r\n"@ + b + "\r\n\r\n"@),
{
    reveal_strlit("\r\nContent-Type: application/json\r\nContent-Length: ");
    reveal_strlit("\r\nContent-Type: application/json");
    reveal_strlit("\r\nContent-Length: ");
    reveal_strlit("\r\nConnection: close\r\n\r\n");
    reveal_strlit("\r\n");
    reveal_strlit("Connection: close");
    reveal_strlit("\r\n\r\n");
    let a = reason + "\r\nContent-Type: application/json"@;
    let b = "Connection: close"@;
    assert("\r\nContent-Type: application/json\r\nContent-Length: "@
        =~= "\r\nContent-Type: application/json"@ + "\r\nContent-Length: "@);
    assert("\r\nConnection: close\r\n\r\n"@ =~= "\r\n"@ + b + "\r\n\r\n"@);
    assert(head(status, reason, length) =~= "HTTP/1.1 "@ + crate::text::decimal(status as nat) + (
    " "@ + a) + "\r\nContent-Length: "@ + crate::text::decimal(length) + ("\r\n"@ + b
        + "\r\n\r\n"@));
}

/// A request that was sent whole is read whole: its method, its path and, after a header
/// that announces the length and a blank line, its body.
pub proof fn sent_requests_are_read(
    method: Seq<char>,
    path: Seq<char>,
    rest: Seq<char>,
    body: Seq<u8>,
)
    requires
        method.len() > 0,
        path.len() > 0,
        forall|i: int| 0 <= i < method.len() ==> !crate::text::is_space(#[trigger] method[i]),
        forall|i: int| 0 <= i < path.len() ==> !crate::text::is_space(#[trigger] path[i]),
        0 < body.len() <= 4 * 1024 * 1024,
    ensures
        ({
            let first = method + seq![' '] + (path + seq![' '] + rest);
            let length = "Content-Length"@ + seq![':'] + (seq![' '] + crate::text::decimal(
                body.len(),
            ) + seq!['\r', '\n']);
            let stage = StageView::Body { method, path, length: body.len() };
            &&& after_lines(StageView::Start, seq![first, length, seq!['\r', '\n']])
                == NextView::Body(stage, body.len())
            &&& after_body(stage, Some(body)) == (NextView::Done { method, path, body })
        }),
{
    let n = body.len();
    let first = method + seq![' '] + (path + seq![' '] + rest);
    let length = "Content-Length"@ + seq![':'] + (seq![' '] + crate::text::decimal(n) + seq![
        '\r',
        '\n',
    ]);
    let end = seq!['\r', '\n'];
    request_lines_name_method_and_path(method, path, rest);
    lengths_are_announced(n, seq![' '], end);
    reveal_strlit("Content-Length");
    assert(length[0] == 'C');
    assert(crate::text::trim_start(length) == length);
    assert(end.drop_first().drop_first() =~= Seq::empty());
    assert(crate::text::trim_start(end.drop_first().drop_first()).len() == 0);
    assert(crate::text::trim_start(end.drop_first()) == crate::text::trim_start(
        end.drop_first().drop_first(),
    ));
    assert(crate::text::trim_start(end).len() == 0);
    let lines = seq![first, length, end];
    let started = StageView::Headers { method, path, length: 0 };
    let announced = StageView::Headers { method, path, length: n };
    assert(lines.drop_first() =~= seq![length, end]);
    assert(lines.drop_first().drop_first() =~= seq![end]);
    bodies_up_to_four_mebibytes(method, path, n);
    assert(after_line(announced, Some(end)) == after_headers(method, path, n));
    assert(after_lines(announced, seq![end]) == after_headers(method, path, n));
    assert(after_line(started, Some(length)) == NextView::Line(announced));
    assert(after_lines(started, seq![length, end]) == after_headers(method, path, n));
}

} // verus!
