//! The element event stream.
//!
//! The lexer is an external collaborator: it turns raw markup text into a
//! flat sequence of start-tag, end-tag, empty-tag and text events, already
//! comment-filtered and whitespace-trimmed.  The parser itself only ever
//! walks a `Vec<XmlEvent>` by index.

use vstd::prelude::*;

use crate::errors::{elem_err, end_err, ErrV, ParseError};
use crate::utils::str_eq;

verus! {

/// One element event of the document stream.
#[derive(Debug, Clone, PartialEq, Eq)]
pub enum XmlEvent {
    /// An opening tag with its raw attribute text.
    Start { name: String, attrs: String },
    /// A closing tag.
    End { name: String },
    /// A childless tag with its raw attribute text.
    Empty { name: String, attrs: String },
    /// Trimmed, nonempty text between tags.
    Text { text: String },
}

/// The mathematical value of an [`XmlEvent`].
pub ghost enum EventV {
    Start { name: Seq<char>, attrs: Seq<char> },
    End { name: Seq<char> },
    Empty { name: Seq<char>, attrs: Seq<char> },
    Text { text: Seq<char> },
}

impl View for XmlEvent {
    type V = EventV;

    open spec fn view(&self) -> EventV {
        match self {
            XmlEvent::Start { name, attrs } => EventV::Start { name: name@, attrs: attrs@ },
            XmlEvent::End { name } => EventV::End { name: name@ },
            XmlEvent::Empty { name, attrs } => EventV::Empty { name: name@, attrs: attrs@ },
            XmlEvent::Text { text } => EventV::Text { text: text@ },
        }
    }
}

/// The views of an event list.
pub open spec fn events_view(s: Seq<XmlEvent>) -> Seq<EventV> {
    s.map_values(|e: XmlEvent| e@)
}

/// The name of a tag event, or the content of a text event: the piece quoted
/// in an `UnexpectedElement` error.
pub open spec fn ev_tag(e: EventV) -> Seq<char> {
    match e {
        EventV::Start { name, .. } => name,
        EventV::End { name } => name,
        EventV::Empty { name, .. } => name,
        EventV::Text { text } => text,
    }
}

/// The event sequence that the lexer yields for a document: XML comments
/// dropped, text trimmed, all-whitespace text dropped.  A function of the
/// text alone.
pub uninterp spec fn events_of(s: Seq<char>) -> Seq<EventV>;

/// Relies on magnesium's `ElementIterator` together with its
/// `skip_comments`, `trim_text` and `skip_empty_text_elements` filters: the
/// pipeline walks the markup and yields each element event in document
/// order.
#[verifier::external_body]
pub fn lex_document(s: &str) -> (r: Vec<XmlEvent>)
    ensures
        events_view(r@) == events_of(s@),
{
    let it = magnesium::ElementIterator::new(s).filter_map(magnesium::skip_comments);
    let it = it.map(magnesium::trim_text).filter_map(magnesium::skip_empty_text_elements);
    let mut out = Vec::new();
    for el in it {
        out.push(match el {
            magnesium::XmlElement::StartTag { name, attrs } => XmlEvent::Start { name: name.to_owned(), attrs: attrs.to_owned() },
            magnesium::XmlElement::EndTag { name } => XmlEvent::End { name: name.to_owned() },
            magnesium::XmlElement::EmptyTag { name, attrs } => XmlEvent::Empty { name: name.to_owned(), attrs: attrs.to_owned() },
            magnesium::XmlElement::Text(t) => XmlEvent::Text { text: t.to_owned() },
            magnesium::XmlElement::Comment(_) => continue,
        });
    }
    out
}

/// The position just past the closing `</comment>` tag, skipping everything
/// in between.
pub open spec fn skip_comment(ev: Seq<EventV>, i: int) -> Result<int, ErrV>
    decreases ev.len() - i,
{
    if i < 0 || i >= ev.len() {
        Err(end_err("comment"@))
    } else {
        match ev[i] {
            EventV::End { name } => if name == "comment"@ {
                Ok(i + 1)
            } else {
                skip_comment(ev, i + 1)
            },
            _ => skip_comment(ev, i + 1),
        }
    }
}

/// Skipping a comment always moves the cursor forward, never past the end.
pub proof fn lemma_skip_comment_advances(ev: Seq<EventV>, i: int)
    ensures
        skip_comment(ev, i) matches Ok(j) ==> i < j <= ev.len(),
    decreases ev.len() - i,
{
    if 0 <= i < ev.len() {
        lemma_skip_comment_advances(ev, i + 1);
    }
}

/// Skips events through the matching `</comment>` end tag, as comments may
/// hold arbitrary markup that the registry does not record.
pub fn eat_to_end_of_comment(events: &Vec<XmlEvent>, pos: usize) -> (r: Result<
    usize,
    ParseError,
>)
    ensures
        match r {
            Ok(j) => skip_comment(events_view(events@), pos as int) == Ok::<int, ErrV>(j as int),
            Err(e) => skip_comment(events_view(events@), pos as int) == Err::<int, ErrV>(e@),
        },
{
    let ghost ev = events_view(events@);
    let mut cur = pos;
    loop
        invariant
            pos <= cur,
            ev == events_view(events@),
            skip_comment(ev, pos as int) == skip_comment(ev, cur as int),
        decreases ev.len() - cur,
    {
        if cur >= events.len() {
            return Err(ParseError::UnexpectedElement {
                tag: String::new(),
                context: "comment".to_owned(),
            });
        }
        proof {
            assert(ev[cur as int] == events@[cur as int]@);
        }
        match &events[cur] {
            XmlEvent::End { name } => {
                if str_eq(name.as_str(), "comment") {
                    return Ok(cur + 1);
                }
            },
            _ => {},
        }
        cur += 1;
    }
}

/// Reads a lone text event, the only thing allowed at this position.
pub open spec fn spec_expect_text(ev: Seq<EventV>, i: int, context: Seq<char>) -> Result<
    Seq<char>,
    ErrV,
> {
    if i < 0 || i >= ev.len() {
        Err(end_err(context))
    } else {
        match ev[i] {
            EventV::Text { text } => Ok(text),
            e => Err(elem_err(ev_tag(e), context)),
        }
    }
}

/// Takes the text event at `pos`, failing on anything else.
pub fn expect_text(events: &Vec<XmlEvent>, pos: usize, context: &str) -> (r: Result<
    String,
    ParseError,
>)
    ensures
        match r {
            Ok(t) => spec_expect_text(events_view(events@), pos as int, context@) == Ok::<
                Seq<char>,
                ErrV,
            >(t@),
            Err(e) => spec_expect_text(events_view(events@), pos as int, context@) == Err::<
                Seq<char>,
                ErrV,
            >(e@),
        },
{
    if pos >= events.len() {
        return Err(ParseError::UnexpectedElement { tag: String::new(), context: context.to_owned() });
    }
    proof {
        assert(events_view(events@)[pos as int] == events@[pos as int]@);
    }
    match &events[pos] {
        XmlEvent::Text { text } => Ok(text.clone()),
        e => Err(ParseError::UnexpectedElement { tag: exec_ev_tag(e), context: context.to_owned() }),
    }
}

/// The name or text of an event, cloned for an error report.
pub fn exec_ev_tag(e: &XmlEvent) -> (r: String)
    ensures
        r@ == ev_tag(e@),
{
    match e {
        XmlEvent::Start { name, .. } => name.clone(),
        XmlEvent::End { name } => name.clone(),
        XmlEvent::Empty { name, .. } => name.clone(),
        XmlEvent::Text { text } => text.clone(),
    }
}

/// Reads the end tag named `name`, the only thing allowed at this position.
pub open spec fn spec_expect_end(
    ev: Seq<EventV>,
    i: int,
    name: Seq<char>,
    context: Seq<char>,
) -> Result<int, ErrV> {
    if i < 0 || i >= ev.len() {
        Err(end_err(context))
    } else {
        match ev[i] {
            EventV::End { name: n } => if n == name {
                Ok(i + 1)
            } else {
                Err(elem_err(n, context))
            },
            e => Err(elem_err(ev_tag(e), context)),
        }
    }
}

/// Consumes the end tag named `name` at `pos`, failing on anything else.
pub fn expect_end(events: &Vec<XmlEvent>, pos: usize, name: &str, context: &str) -> (r: Result<
    usize,
    ParseError,
>)
    ensures
        match r {
            Ok(j) => spec_expect_end(events_view(events@), pos as int, name@, context@) == Ok::<
                int,
                ErrV,
            >(j as int),
            Err(e) => spec_expect_end(events_view(events@), pos as int, name@, context@) == Err::<
                int,
                ErrV,
            >(e@),
        },
{
    if pos >= events.len() {
        return Err(ParseError::UnexpectedElement { tag: String::new(), context: context.to_owned() });
    }
    proof {
        assert(events_view(events@)[pos as int] == events@[pos as int]@);
    }
    match &events[pos] {
        XmlEvent::End { name: n } => {
            if str_eq(n.as_str(), name) {
                Ok(pos + 1)
            } else {
                Err(ParseError::UnexpectedElement { tag: n.clone(), context: context.to_owned() })
            }
        },
        e => Err(ParseError::UnexpectedElement { tag: exec_ev_tag(e), context: context.to_owned() }),
    }
}

/// Reads the start tag named `name` with empty attribute text, the only
/// thing allowed at this position.
pub open spec fn spec_expect_bare_start(
    ev: Seq<EventV>,
    i: int,
    name: Seq<char>,
    context: Seq<char>,
) -> Result<int, ErrV> {
    if i < 0 || i >= ev.len() {
        Err(end_err(context))
    } else {
        match ev[i] {
            EventV::Start { name: n, attrs } => if n == name && attrs.len() == 0 {
                Ok(i + 1)
            } else {
                Err(elem_err(n, context))
            },
            e => Err(elem_err(ev_tag(e), context)),
        }
    }
}

/// Consumes the start tag named `name` (with no attributes) at `pos`,
/// failing on anything else.
pub fn expect_bare_start(events: &Vec<XmlEvent>, pos: usize, name: &str, context: &str) -> (r:
    Result<usize, ParseError>)
    ensures
        match r {
            Ok(j) => spec_expect_bare_start(events_view(events@), pos as int, name@, context@)
                == Ok::<int, ErrV>(j as int),
            Err(e) => spec_expect_bare_start(events_view(events@), pos as int, name@, context@)
                == Err::<int, ErrV>(e@),
        },
{
    if pos >= events.len() {
        return Err(ParseError::UnexpectedElement { tag: String::new(), context: context.to_owned() });
    }
    proof {
        assert(events_view(events@)[pos as int] == events@[pos as int]@);
    }
    match &events[pos] {
        XmlEvent::Start { name: n, attrs } => {
            if str_eq(n.as_str(), name) && attrs.as_str().is_empty() {
                Ok(pos + 1)
            } else {
                Err(ParseError::UnexpectedElement { tag: n.clone(), context: context.to_owned() })
            }
        },
        e => Err(ParseError::UnexpectedElement { tag: exec_ev_tag(e), context: context.to_owned() }),
    }
}

/// The text content of a `<name>text</name>` run: a bare start tag, a text
/// event, and the matching end tag, yielding the text.
pub open spec fn spec_expect_text_element(
    ev: Seq<EventV>,
    i: int,
    name: Seq<char>,
    context: Seq<char>,
) -> Result<(Seq<char>, int), ErrV> {
    match spec_expect_bare_start(ev, i, name, context) {
        Ok(j) => match spec_expect_text(ev, j, context) {
            Ok(t) => match spec_expect_end(ev, j + 1, name, context) {
                Ok(k) => Ok((t, k)),
                Err(e) => Err(e),
            },
            Err(e) => Err(e),
        },
        Err(e) => Err(e),
    }
}

/// Consumes `<name>text</name>` at `pos`, yielding the text and the position
/// after the end tag.
pub fn expect_text_element(events: &Vec<XmlEvent>, pos: usize, name: &str, context: &str) -> (r:
    Result<(String, usize), ParseError>)
    ensures
        match r {
            Ok(p) => spec_expect_text_element(events_view(events@), pos as int, name@, context@)
                == Ok::<(Seq<char>, int), ErrV>((p.0@, p.1 as int)),
            Err(e) => spec_expect_text_element(events_view(events@), pos as int, name@, context@)
                == Err::<(Seq<char>, int), ErrV>(e@),
        },
{
    let j = match expect_bare_start(events, pos, name, context) {
        Ok(j) => j,
        Err(e) => {
            return Err(e);
        },
    };
    let t = match expect_text(events, j, context) {
        Ok(t) => t,
        Err(e) => {
            return Err(e);
        },
    };
    let n = events.len();
    proof {
        let ev = events_view(events@);
        if j as int >= ev.len() {
            assert(spec_expect_text(ev, j as int, context@) is Err);
        }
        assert(j < n);
    }
    match expect_end(events, j + 1, name, context) {
        Ok(k) => Ok((t, k)),
        Err(e) => Err(e),
    }
}

} // verus!
