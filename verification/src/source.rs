//! The lexer boundary: a pull-based event source over an in-memory
//! document, and the whole pass from input bytes to output bytes.

use vstd::prelude::*;

use quick_xml::events::Event as QEvent;

use crate::events::{is_terminal, AttrItem, EventV, XmlEvent};
use crate::classify::prefixes_view;
use crate::router::{
    consume_from, init_state, lemma_consume_from_absorbs, lemma_consume_from_append,
    lemma_consume_from_push, run_spec, step, FilterState, RunV, StepOutcome,
};
use crate::{ErrorV, FilterError};

verus! {

#[verifier::external_type_specification]
#[verifier::external_body]
#[verifier::reject_recursive_types(R)]
pub struct ExReader<R>(quick_xml::reader::Reader<R>);

#[verifier::external_type_specification]
#[verifier::external_body]
#[verifier::reject_recursive_types(T)]
pub struct ExCursor<T>(std::io::Cursor<T>);

/// The stream of lexical events the lexer produces over a document, up to
/// and including its first terminal: the end of input, or — where the lexer
/// cannot tokenize any further — a [`EventV::Fault`] marker. The lexer's
/// configuration is fixed, so the stream depends on the bytes alone.
pub uninterp spec fn lexed_events(b: Seq<u8>) -> Seq<EventV>;

/// A pull-based source of lexical events over an in-memory document. It
/// carries, in ghost form, the document's bytes and how many events have
/// been pulled off so far.
pub struct EventSource {
    reader: quick_xml::reader::Reader<std::io::Cursor<Vec<u8>>>,
    doc: Ghost<Seq<u8>>,
    at: Ghost<int>,
}

impl EventSource {
    /// The bytes of the document the source lexes.
    pub closed spec fn input(&self) -> Seq<u8> {
        self.doc@
    }

    /// How many events have been pulled off the source.
    pub closed spec fn pos(&self) -> int {
        self.at@
    }
}

/// Relies on `quick_xml::reader::Reader::from_reader`: builds the lexer
/// over the document's bytes.
#[verifier::external_body]
fn reader_new(input: Vec<u8>) -> quick_xml::reader::Reader<std::io::Cursor<Vec<u8>>> {
    quick_xml::reader::Reader::from_reader(std::io::Cursor::new(input))
}

/// Opens an event source over the document's bytes: no event has been
/// pulled off it yet.
fn event_source(input: Vec<u8>) -> (r: EventSource)
    ensures
        r.input() == input@,
        r.pos() == 0,
{
    let ghost doc = input@;
    EventSource { reader: reader_new(input), doc: Ghost(doc), at: Ghost(0int) }
}

#[verifier::external_type_specification]
#[verifier::external_body]
pub struct ExBytesStart<'a>(quick_xml::events::BytesStart<'a>);

/// Relies on `quick_xml::events::BytesStart::attributes`: reads the
/// attribute slots off a start tag, each one a parsed key/value pair or a
/// slot the lexer could not parse. Duplicate keys are handed out as plain
/// pairs, so the classifier itself can count the `href` attributes.
#[verifier::external_body]
fn tag_attrs(e: &quick_xml::events::BytesStart<'_>) -> (r: Vec<AttrItem>) {
    e.attributes().with_checks(false).map(|a| match a {
        Ok(a) => AttrItem::Pair(a.key.as_ref().to_vec(), a.value.into_owned()),
        Err(_) => AttrItem::Bad,
    }).collect()
}

/// Relies on `quick_xml::reader::Reader::read_event_into`: pulls the next
/// lexical event off the document — the next element of the lexed stream.
/// Tag events carry the raw bytes between the angle brackets; start tags
/// also carry their parsed attribute slots; constructs this filter does not
/// understand come back as [`XmlEvent::Other`]; a lexing failure, the
/// stream's [`EventV::Fault`], is the one error this call reports. The
/// clauses on the stream's shape hold of the lexer: every call either
/// consumes input, reports the end of it, or fails, so the stream over a
/// finite document is never empty and ends with its first terminal.
#[verifier::external_body]
fn source_next(src: &mut EventSource) -> (r: Result<XmlEvent, FilterError>)
    ensures
        final(src).input() == old(src).input(),
        final(src).pos() == old(src).pos() + 1,
        lexed_events(old(src).input()).len() >= 1,
        is_terminal(lexed_events(old(src).input()).last()),
        old(src).pos() < lexed_events(old(src).input()).len() ==> (match r {
            Ok(ev) => ev@ == lexed_events(old(src).input())[old(src).pos()],
            Err(e) => lexed_events(old(src).input())[old(src).pos()] == EventV::Fault && e@
                == ErrorV::MalformedXml,
        }),
{
    let mut buf = Vec::new();
    match src.reader.read_event_into(&mut buf) {
        Ok(QEvent::Start(e)) => Ok(XmlEvent::Start(tag_attrs(&e), e.to_vec())),
        Ok(QEvent::End(e)) => Ok(XmlEvent::End(e.to_vec())),
        Ok(QEvent::Empty(e)) => Ok(XmlEvent::Empty(e.to_vec())),
        Ok(QEvent::Text(e)) => Ok(XmlEvent::Text(e.to_vec())),
        Ok(QEvent::Decl(e)) => Ok(XmlEvent::Decl(e.to_vec())),
        Ok(QEvent::Eof) => Ok(XmlEvent::Eof),
        Ok(_) => Ok(XmlEvent::Other),
        Err(_) => Err(FilterError::MalformedXml),
    }
}

/// No executable event stands for a lexing fault: that marker exists only
/// in the lexed stream.
proof fn lemma_event_view_not_fault(ev: &XmlEvent)
    ensures
        !(ev@ is Fault),
{
}

/// Filters a whole document: consumes the input's lexical events one by
/// one, suppresses every bookmark whose decoded local path opens with one
/// of the prefixes along with one following whitespace text node, and
/// returns the retained events' bytes.
///
/// The result is exactly the router's run over the document's lexed event
/// stream: [`run_spec`] of [`lexed_events`] of the input.
pub fn filter_bytes(input: Vec<u8>, prefixes: &Vec<String>) -> (r: Result<Vec<u8>, FilterError>)
    ensures
        (r matches Ok(out) ==> run_spec(lexed_events(input@), prefixes_view(prefixes@)) == Ok::<
            Seq<u8>,
            ErrorV,
        >(out@)),
        (r matches Err(e) ==> run_spec(lexed_events(input@), prefixes_view(prefixes@)) == Err::<
            Seq<u8>,
            ErrorV,
        >(e@)),
{
    let ghost p = prefixes_view(prefixes@);
    let ghost doc = input@;
    let ghost evs = lexed_events(doc);
    let mut src = event_source(input);
    let mut st = FilterState { skipping: false, swallow: false };
    let mut out: Vec<u8> = Vec::new();
    loop
        invariant
            p == prefixes_view(prefixes@),
            doc == input@,
            evs == lexed_events(doc),
            src.input() == doc,
            0 <= src.pos(),
            src.pos() >= 1 ==> src.pos() < evs.len() && is_terminal(evs.last()),
            consume_from(RunV::Going(init_state(), seq![]), evs.take(src.pos()), p)
                == RunV::Going(st, out@),
        decreases evs.len() - src.pos(),
    {
        let ghost i = src.pos();
        let next = source_next(&mut src);
        proof {
            assert(i < evs.len());
            lemma_consume_from_push(RunV::Going(init_state(), seq![]), evs.take(i), evs[i], p);
            assert(evs.take(i).push(evs[i]) =~= evs.take(i + 1));
            assert(evs.take(i + 1) + evs.skip(i + 1) =~= evs);
        }
        let ev = match next {
            Ok(ev) => ev,
            Err(e) => {
                proof {
                    assert(consume_from(
                        RunV::Going(init_state(), seq![]),
                        evs.take(i + 1),
                        p,
                    ) == RunV::Failed(ErrorV::MalformedXml));
                    lemma_consume_from_absorbs(
                        RunV::Failed(ErrorV::MalformedXml),
                        evs.skip(i + 1),
                        p,
                    );
                    lemma_consume_from_append(
                        RunV::Going(init_state(), seq![]),
                        evs.take(i + 1),
                        evs.skip(i + 1),
                        p,
                    );
                    assert(consume_from(RunV::Going(init_state(), seq![]), evs, p)
                        == RunV::Failed(ErrorV::MalformedXml));
                    assert(run_spec(evs, p) == Err::<Seq<u8>, ErrorV>(e@));
                }
                return Err(e);
            },
        };
        let outcome = step(&mut st, &ev, prefixes, &mut out);
        match outcome {
            StepOutcome::Step => {
                proof {
                    lemma_event_view_not_fault(&ev);
                    // only a non-terminal event keeps the run going, and
                    // only the stream's last event is owed to be terminal
                    assert(!is_terminal(evs[i]));
                    assert(i + 1 < evs.len());
                }
            },
            StepOutcome::Finished => {
                proof {
                    lemma_consume_from_absorbs(RunV::Done(out@), evs.skip(i + 1), p);
                    lemma_consume_from_append(
                        RunV::Going(init_state(), seq![]),
                        evs.take(i + 1),
                        evs.skip(i + 1),
                        p,
                    );
                }
                return Ok(out);
            },
            StepOutcome::Fatal(e) => {
                proof {
                    assert(consume_from(RunV::Going(init_state(), seq![]), evs.take(i + 1), p)
                        == RunV::Failed(e@));
                    lemma_consume_from_absorbs(RunV::Failed(e@), evs.skip(i + 1), p);
                    lemma_consume_from_append(
                        RunV::Going(init_state(), seq![]),
                        evs.take(i + 1),
                        evs.skip(i + 1),
                        p,
                    );
                    assert(consume_from(RunV::Going(init_state(), seq![]), evs, p)
                        == RunV::Failed(e@));
                    assert(run_spec(evs, p) == Err::<Seq<u8>, ErrorV>(e@));
                }
                return Err(e);
            },
        }
    }
}

} // verus!
