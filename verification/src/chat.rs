//! Chat templates: how a conversation becomes a prompt. Each model brings its own
//! format, found from the configuration, from the template stored in the GGUF file
//! (by its marks, not by rendering it), or from the architecture.

use vstd::prelude::*;

use crate::gguf::{GgufFile, GgufFileView};
use crate::text::{has, same_text};
use crate::value::GgufValueView;

verus! {

/// The chat formats the engine knows.
#[derive(Debug, Clone, Copy, PartialEq, Eq)]
pub enum Format {
    /// `<|im_start|>{role}\n{content}<|im_end|>\n`
    ChatML,
    /// `<|start_header_id|>{role}<|end_header_id|>\n\n{content}<|eot_id|>`
    Llama3,
}

impl Format {
    /// Name of the format.
    pub open spec fn label(self) -> Seq<char> {
        match self {
            Format::ChatML => "chatml"@,
            Format::Llama3 => "llama3"@,
        }
    }

    /// Tokens that close the assistant's turn.
    pub open spec fn closers(self) -> Seq<Seq<char>> {
        match self {
            Format::ChatML => seq!["<|im_end|>"@],
            Format::Llama3 => seq!["<|eot_id|>"@, "<|end_of_text|>"@],
        }
    }

    /// Name of the format.
    pub fn name(&self) -> (r: &'static str)
        ensures
            r@ == self.label(),
    {
        match self {
            Format::ChatML => "chatml",
            Format::Llama3 => "llama3",
        }
    }

    /// Tokens that close the assistant's turn; they end the generation.
    pub fn stop_tokens(&self) -> (r: Vec<&'static str>)
        ensures
            r@.len() == self.closers().len(),
            forall|i: int| 0 <= i < r@.len() ==> (#[trigger] r@[i])@ == self.closers()[i],
    {
        let mut out: Vec<&'static str> = Vec::new();
        match self {
            Format::ChatML => {
                out.push("<|im_end|>");
            },
            Format::Llama3 => {
                out.push("<|eot_id|>");
                out.push("<|end_of_text|>");
            },
        }
        out
    }
}

/// A chat template and where it comes from: "config", "gguf", "arch" or "default".
#[derive(Debug, Clone)]
pub struct ChatTemplate {
    pub format: Format,
    pub source: &'static str,
}

/// The characters of an optional string.
pub open spec fn opt(s: Option<&str>) -> Option<Seq<char>> {
    match s {
        Some(t) => Some(t@),
        None => None,
    }
}

/// The format that a stored template shows by its marks.
pub open spec fn marked(template: Seq<char>) -> Option<Format> {
    if crate::text::contains(template, "<|im_start|>"@) {
        Some(Format::ChatML)
    } else if crate::text::contains(template, "<|start_header_id|>"@) {
        Some(Format::Llama3)
    } else {
        None
    }
}

/// The format of a model without an override: from its template, else from its
/// architecture, else ChatML.
pub open spec fn detected(arch: Seq<char>, template: Option<Seq<char>>) -> (Format, Seq<char>) {
    match template {
        Some(t) if marked(t) is Some => (marked(t)->Some_0, "gguf"@),
        _ => if arch == "qwen2"@ {
            (Format::ChatML, "arch"@)
        } else if arch == "llama"@ {
            (Format::Llama3, "arch"@)
        } else {
            (Format::ChatML, "default"@)
        },
    }
}

/// The format of a model; an override other than "auto" decides.
pub open spec fn chosen(arch: Seq<char>, template: Option<Seq<char>>, over: Option<Seq<char>>) -> Result<
    (Format, Seq<char>),
    Seq<char>,
> {
    match over {
        None => Ok(detected(arch, template)),
        Some(o) => if o == "auto"@ {
            Ok(detected(arch, template))
        } else if o == "chatml"@ {
            Ok((Format::ChatML, "config"@))
        } else if o == "llama3"@ {
            Ok((Format::Llama3, "config"@))
        } else {
            Err("template '"@ + o + "' non noto (validi: auto, chatml, llama3)"@)
        },
    }
}

/// A message: role and content.
pub type Message = (Seq<char>, Seq<char>);

/// One message in the given format.
pub open spec fn turn(format: Format, m: Message) -> Seq<char> {
    match format {
        Format::ChatML => "<|im_start|>"@ + m.0 + seq!['\n'] + m.1 + "<|im_end|>\n"@,
        Format::Llama3 => "<|start_header_id|>"@ + m.0 + "<|end_header_id|>\n\n"@ + m.1
            + "<|eot_id|>"@,
    }
}

/// The messages one after the other.
pub open spec fn turns(format: Format, messages: Seq<Message>) -> Seq<char>
    decreases messages.len(),
{
    if messages.len() == 0 {
        Seq::empty()
    } else {
        turns(format, messages.drop_last()) + turn(format, messages.last())
    }
}

/// The whole prompt, which ends where the assistant is to speak.
pub open spec fn rendered(format: Format, messages: Seq<Message>) -> Seq<char> {
    match format {
        Format::ChatML => turns(format, messages) + "<|im_start|>assistant\n"@,
        Format::Llama3 => "<|begin_of_text|>"@ + turns(format, messages)
            + "<|start_header_id|>assistant<|end_header_id|>\n\n"@,
    }
}

/// The views of messages.
pub open spec fn message_views(messages: Seq<(&str, &str)>) -> Seq<Message> {
    Seq::new(messages.len(), |i: int| (messages[i].0@, messages[i].1@))
}

fn detect_model(arch: &str, gguf_tpl: Option<&str>) -> (r: ChatTemplate)
    ensures
        (r.format, r.source@) == detected(arch@, opt(gguf_tpl)),
{
    if let Some(t) = gguf_tpl {
        if has(t, "<|im_start|>") {
            return ChatTemplate { format: Format::ChatML, source: "gguf" };
        }
        if has(t, "<|start_header_id|>") {
            return ChatTemplate { format: Format::Llama3, source: "gguf" };
        }
    }
    if same_text(arch, "qwen2") {
        ChatTemplate { format: Format::ChatML, source: "arch" }
    } else if same_text(arch, "llama") {
        ChatTemplate { format: Format::Llama3, source: "arch" }
    } else {
        ChatTemplate { format: Format::ChatML, source: "default" }
    }
}

impl ChatTemplate {
    /// Finds the format of a model.
    ///
    /// * `arch`: the architecture named by the metadata
    /// * `gguf_tpl`: the template stored in the metadata
    /// * `over`: override of the configuration
    pub fn detect(arch: &str, gguf_tpl: Option<&str>, over: Option<&str>) -> (r: Result<
        Self,
        String,
    >)
        ensures
            match chosen(arch@, opt(gguf_tpl), opt(over)) {
                Ok((format, source)) => r matches Ok(t) && t.format == format && t.source@
                    == source,
                Err(e) => r matches Err(m) && m@ == e,
            },
    {
        match over {
            None => Ok(detect_model(arch, gguf_tpl)),
            Some(o) => if same_text(o, "auto") {
                Ok(detect_model(arch, gguf_tpl))
            } else if same_text(o, "chatml") {
                Ok(ChatTemplate { format: Format::ChatML, source: "config" })
            } else if same_text(o, "llama3") {
                Ok(ChatTemplate { format: Format::Llama3, source: "config" })
            } else {
                let mut msg = "template '".to_owned();
                msg.push_str(o);
                msg.push_str("' non noto (validi: auto, chatml, llama3)");
                Err(msg)
            },
        }
    }

    /// Finds the format of the model in a GGUF file.
    pub fn of_model(gguf: &GgufFile, over: Option<&str>) -> (r: Result<Self, String>)
        ensures
            match chosen(
                architecture(gguf@),
                string_in(gguf@, "tokenizer.chat_template"@),
                opt(over),
            ) {
                Ok((format, source)) => r matches Ok(t) && t.format == format && t.source@
                    == source,
                Err(e) => r matches Err(m) && m@ == e,
            },
    {
        ChatTemplate::detect(
            architecture_of(gguf),
            string_of_key(gguf, "tokenizer.chat_template"),
            over,
        )
    }

    /// The whole prompt for a conversation of (role, content) messages.
    pub fn render(&self, messages: &[(&str, &str)]) -> (r: String)
        ensures
            r@ == rendered(self.format, message_views(messages@)),
    {
        let ghost all = message_views(messages@);
        let mut out = String::new();
        match self.format {
            Format::ChatML => {},
            Format::Llama3 => {
                out.push_str("<|begin_of_text|>");
            },
        }
        let ghost start = out@;
        let mut i: usize = 0;
        assert(all.take(0) =~= Seq::empty());
        assert(out@ =~= start + turns(self.format, all.take(0)));
        while i < messages.len()
            invariant
                i <= messages@.len(),
                all == message_views(messages@),
                out@ == start + turns(self.format, all.take(i as int)),
            decreases messages@.len() - i,
        {
            let (role, content) = messages[i];
            let ghost before = out@;
            match self.format {
                Format::ChatML => {
                    out.push_str("<|im_start|>");
                    out.push_str(role);
                    out.push('\n');
                    out.push_str(content);
                    out.push_str("<|im_end|>\n");
                },
                Format::Llama3 => {
                    out.push_str("<|start_header_id|>");
                    out.push_str(role);
                    out.push_str("<|end_header_id|>\n\n");
                    out.push_str(content);
                    out.push_str("<|eot_id|>");
                },
            }
            proof {
                assert(out@ =~= before + turn(self.format, (role@, content@)));
                assert(all.take(i + 1).drop_last() =~= all.take(i as int));
                assert(all.take(i + 1).last() == (role@, content@));
                assert(out@ =~= start + turns(self.format, all.take(i + 1)));
            }
            i += 1;
        }
        assert(all.take(i as int) =~= all);
        match self.format {
            Format::ChatML => {
                out.push_str("<|im_start|>assistant\n");
            },
            Format::Llama3 => {
                out.push_str("<|start_header_id|>assistant<|end_header_id|>\n\n");
            },
        }
        assert(out@ =~= rendered(self.format, all));
        out
    }
}

/// A string of the metadata.
pub open spec fn string_in(f: GgufFileView, key: Seq<char>) -> Option<Seq<char>> {
    match crate::gguf::lookup(f.metadata, key) {
        Some(GgufValueView::String(s)) => Some(s),
        _ => None,
    }
}

/// The architecture named by the metadata.
pub open spec fn architecture(f: GgufFileView) -> Seq<char> {
    match string_in(f, "general.architecture"@) {
        Some(s) => s,
        None => "sconosciuta"@,
    }
}

fn string_of_key<'a>(gguf: &'a GgufFile, key: &str) -> (r: Option<&'a str>)
    ensures
        opt(r) == string_in(gguf@, key@),
{
    match gguf.get(key) {
        Some(v) => v.as_str(),
        None => None,
    }
}

/// The architecture named by the metadata.
pub fn architecture_of(gguf: &GgufFile) -> (r: &str)
    ensures
        r@ == architecture(gguf@),
{
    match string_of_key(gguf, "general.architecture") {
        Some(s) => s,
        None => "sconosciuta",
    }
}

// ── laws ──

/// The override of the configuration decides over everything, and "auto" is as
/// good as none.
pub proof fn override_decides(
    arch: Seq<char>,
    template: Option<Seq<char>>,
    arch2: Seq<char>,
    template2: Option<Seq<char>>,
    over: Seq<char>,
)
    ensures
        over != "auto"@ ==> chosen(arch, template, Some(over)) == chosen(
            arch2,
            template2,
            Some(over),
        ),
        chosen(arch, template, Some("auto"@)) == chosen(arch, template, None),
{
}

/// A template without known marks counts as none: it is no error.
pub proof fn unmarked_template_is_ignored(arch: Seq<char>, template: Seq<char>)
    requires
        marked(template) is None,
    ensures
        chosen(arch, Some(template), None) == chosen(arch, None, None),
{
}

/// A conversation renders message by message: more messages only add text before
/// the assistant's turn.
pub proof fn rendering_appends(format: Format, a: Seq<Message>, b: Seq<Message>)
    ensures
        turns(format, a + b) == turns(format, a) + turns(format, b),
    decreases b.len(),
{
    if b.len() == 0 {
        assert(a + b =~= a);
        assert(turns(format, a) + Seq::<char>::empty() =~= turns(format, a));
    } else {
        rendering_appends(format, a, b.drop_last());
        assert((a + b).drop_last() =~= a + b.drop_last());
        assert(turns(format, a + b) =~= turns(format, a) + turns(format, b));
    }
}

/// A ChatML prompt is the turns in their order, each between its marks, and then the
/// beginning of the assistant's turn.
pub proof fn chatml_marks_each_turn(messages: Seq<Message>, role: Seq<char>, content: Seq<char>)
    ensures
        rendered(Format::ChatML, Seq::empty()) == "<|im_start|>assistant\n"@,
        exists|before: Seq<char>|
            {
                &&& rendered(Format::ChatML, messages) == #[trigger] (before
                    + "<|im_start|>assistant\n"@)
                &&& rendered(Format::ChatML, messages.push((role, content))) == before
                    + "<|im_start|>"@ + role + "\n"@ + content + "<|im_end|>"@ + "\n"@
                    + "<|im_start|>assistant\n"@
            },
{
    let before = turns(Format::ChatML, messages);
    let more = messages.push((role, content));
    let opening = "<|im_start|>assistant\n"@;
    assert(more.drop_last() =~= messages);
    reveal_strlit("\n");
    reveal_strlit("<|im_end|>");
    reveal_strlit("<|im_end|>\n");
    assert("\n"@ =~= seq!['\n']);
    assert("<|im_end|>\n"@ =~= "<|im_end|>"@ + "\n"@);
    assert(Seq::<char>::empty() + opening =~= opening);
    assert(rendered(Format::ChatML, messages) == before + opening);
    assert(rendered(Format::ChatML, more) =~= before + "<|im_start|>"@ + role + "\n"@ + content
        + "<|im_end|>"@ + "\n"@ + opening);
}

/// A Llama 3 prompt begins the text, then come the turns in their order, each with its
/// header and its end, and then the header of the assistant's turn.
pub proof fn llama3_marks_each_turn(messages: Seq<Message>, role: Seq<char>, content: Seq<char>)
    ensures
        rendered(Format::Llama3, Seq::empty()) == "<|begin_of_text|>"@
            + "<|start_header_id|>assistant<|end_header_id|>\n\n"@,
        exists|before: Seq<char>|
            {
                &&& rendered(Format::Llama3, messages) == #[trigger] (before
                    + "<|start_header_id|>assistant<|end_header_id|>\n\n"@)
                &&& rendered(Format::Llama3, messages.push((role, content))) == before
                    + "<|start_header_id|>"@ + role + "<|end_header_id|>"@ + "\n\n"@ + content
                    + "<|eot_id|>"@ + "<|start_header_id|>assistant<|end_header_id|>\n\n"@
            },
{
    let before = "<|begin_of_text|>"@ + turns(Format::Llama3, messages);
    let more = messages.push((role, content));
    let opening = "<|start_header_id|>assistant<|end_header_id|>\n\n"@;
    assert(more.drop_last() =~= messages);
    reveal_strlit("\n\n");
    reveal_strlit("<|end_header_id|>");
    reveal_strlit("<|end_header_id|>\n\n");
    assert("<|end_header_id|>\n\n"@ =~= "<|end_header_id|>"@ + "\n\n"@);
    assert("<|begin_of_text|>"@ + Seq::<char>::empty() + opening =~= "<|begin_of_text|>"@
        + opening);
    assert(rendered(Format::Llama3, messages) == before + opening);
    assert(rendered(Format::Llama3, more) =~= before + "<|start_header_id|>"@ + role
        + "<|end_header_id|>"@ + "\n\n"@ + content + "<|eot_id|>"@ + opening);
}

/// A stored template decides by the marks that stand in it, wherever they stand; the
/// architecture counts only where it shows none.
pub proof fn templates_show_their_format(
    arch: Seq<char>,
    a: Seq<char>,
    b: Seq<char>,
    other: Seq<char>,
)
    ensures
        chosen(arch, Some(a + "<|im_start|>"@ + b), None) == Ok::<(Format, Seq<char>), Seq<char>>(
            (Format::ChatML, "gguf"@),
        ),
        !crate::text::contains(a + "<|start_header_id|>"@ + b, "<|im_start|>"@) ==> chosen(
            arch,
            Some(a + "<|start_header_id|>"@ + b),
            None,
        ) == Ok::<(Format, Seq<char>), Seq<char>>((Format::Llama3, "gguf"@)),
        chosen("qwen2"@, None, None) == Ok::<(Format, Seq<char>), Seq<char>>(
            (Format::ChatML, "arch"@),
        ),
        chosen("llama"@, None, None) == Ok::<(Format, Seq<char>), Seq<char>>(
            (Format::Llama3, "arch"@),
        ),
        other != "qwen2"@ && other != "llama"@ ==> chosen(other, None, None) == Ok::<
            (Format, Seq<char>),
            Seq<char>,
        >((Format::ChatML, "default"@)),
{
    parts_are_contained(a, "<|im_start|>"@, b);
    parts_are_contained(a, "<|start_header_id|>"@, b);
    reveal_strlit("qwen2");
    reveal_strlit("llama");
    assert("qwen2"@[0] != "llama"@[0]);
}

proof fn parts_are_contained(a: Seq<char>, mark: Seq<char>, b: Seq<char>)
    ensures
        crate::text::contains(a + mark + b, mark),
{
    let s = a + mark + b;
    assert(s.subrange(a.len() as int, (a.len() + mark.len()) as int) =~= mark);
    assert(crate::text::occurs_at(s, mark, a.len() as int));
}

} // verus!
