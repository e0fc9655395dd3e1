//! The event router: a two-flag state machine that forwards or suppresses
//! each event, together with the whitespace resynchronizer that swallows
//! the one text node left behind by a removed bookmark.

use vstd::prelude::*;

use crate::classify::{classify, path_needs_cleaning, prefixes_view, start_verdict, UriClass};
use crate::events::{
    attrs_view, bookmark_name, bookmark_tag, bytes_eq, emit_event, frame_of, tag_name_matches,
    tag_name_of, EventV, XmlEvent,
};
use crate::{ErrorV, FilterError};

verus! {

/// The single piece of mutable state threaded through a pass. `skipping`
/// spans a removed bookmark's subtree; `swallow` spans from the end of a
/// removed bookmark to the next text event.
#[derive(Debug, Clone, Copy, PartialEq, Eq, Structural)]
pub struct FilterState {
    pub skipping: bool,
    pub swallow: bool,
}

/// The state a pass starts in: forwarding, with no pending swallow.
pub open spec fn init_state() -> FilterState {
    FilterState { skipping: false, swallow: false }
}

/// Where a partial run stands: still going, finished by the end of input,
/// or aborted by a fatal error.
pub enum RunV {
    Going(FilterState, Seq<u8>),
    Done(Seq<u8>),
    Failed(ErrorV),
}

/// Whether a character counts as whitespace under Unicode's `White_Space`
/// property.
pub uninterp spec fn is_unicode_whitespace(c: char) -> bool;

/// Relies on `char::is_whitespace`: whether a character has the Unicode
/// `White_Space` property depends on the character alone.
#[verifier::external_body]
fn char_is_whitespace(c: char) -> (r: bool)
    ensures
        r == is_unicode_whitespace(c),
{
    c.is_whitespace()
}

/// Whether every character of `u` is whitespace.
pub open spec fn all_ws(u: Seq<char>) -> bool {
    forall|i: int| 0 <= i < u.len() ==> is_unicode_whitespace(u[i])
}

/// Whether every character of `u` is whitespace.
pub fn all_whitespace(u: &Vec<char>) -> (r: bool)
    ensures
        r == all_ws(u@),
{
    let mut i: usize = 0;
    while i < u.len()
        invariant
            i <= u.len(),
            forall|j: int| 0 <= j < i ==> is_unicode_whitespace(u@[j]),
        decreases u.len() - i,
    {
        if !char_is_whitespace(u[i]) {
            return false;
        }
        i += 1;
    }
    true
}

/// The text that XML-entity unescaping recovers from raw text bytes, or
/// `None` where the bytes are not valid UTF-8 or hold a broken entity.
pub uninterp spec fn xml_unescaped(t: Seq<u8>) -> Option<Seq<char>>;

/// Relies on `quick_xml::escape::unescape`: the recovered text depends on
/// the bytes alone, and the call fails exactly where the bytes are not
/// valid UTF-8 or an entity is broken.
#[verifier::external_body]
fn unescape_text(t: &Vec<u8>) -> (r: Result<Vec<char>, FilterError>)
    ensures
        match r {
            Ok(u) => xml_unescaped(t@) == Some(u@),
            Err(e) => xml_unescaped(t@) is None && e@ == ErrorV::MalformedXml,
        },
{
    match std::str::from_utf8(t).ok().and_then(|s| quick_xml::escape::unescape(s).ok()) {
        Some(u) => Ok(u.chars().collect()),
        None => Err(FilterError::MalformedXml),
    }
}

/// One transition of the router: from a live state and the output written
/// so far, what one event leads to.
///
/// While skipping, every event is discarded except the end tag named
/// `bookmark`, which returns to forwarding and arms the swallow flag; the
/// end of input inside a skipped subtree means the element never closed.
/// A lexing fault is fatal in either mode.
/// While forwarding, a start tag named `bookmark` is classified and either
/// suppressed (entering the skip), forwarded, or fatal; an armed swallow
/// consumes the next text event, which must be pure whitespace; every other
/// event is forwarded byte for byte, and the end of input finishes the run.
pub open spec fn step_spec(st: FilterState, out: Seq<u8>, ev: EventV, p: Seq<Seq<char>>) -> RunV {
    if st.skipping {
        match ev {
            EventV::End(n) => if n == bookmark_name() {
                RunV::Going(FilterState { skipping: false, swallow: true }, out)
            } else {
                RunV::Going(st, out)
            },
            EventV::Eof => RunV::Failed(ErrorV::MalformedXml),
            EventV::Fault => RunV::Failed(ErrorV::MalformedXml),
            _ => RunV::Going(st, out),
        }
    } else {
        match ev {
            EventV::Start(attrs, c) => if tag_name_of(c) == bookmark_name() {
                match start_verdict(attrs, p) {
                    Ok(true) => RunV::Going(FilterState { skipping: true, swallow: st.swallow }, out),
                    Ok(false) => RunV::Going(st, out + frame_of(ev)),
                    Err(e) => RunV::Failed(e),
                }
            } else {
                RunV::Going(st, out + frame_of(ev))
            },
            EventV::Text(t) => if st.swallow {
                match xml_unescaped(t) {
                    Some(u) => if all_ws(u) {
                        RunV::Going(FilterState { skipping: false, swallow: false }, out)
                    } else {
                        RunV::Failed(ErrorV::StructuralAssumptionViolated)
                    },
                    None => RunV::Failed(ErrorV::MalformedXml),
                }
            } else {
                RunV::Going(st, out + frame_of(ev))
            },
            EventV::End(_) => RunV::Going(st, out + frame_of(ev)),
            EventV::Empty(_) => RunV::Going(st, out + frame_of(ev)),
            EventV::Decl(_) => RunV::Going(st, out + frame_of(ev)),
            EventV::Eof => RunV::Done(out),
            EventV::Other => RunV::Failed(ErrorV::MalformedXml),
            EventV::Fault => RunV::Failed(ErrorV::MalformedXml),
        }
    }
}

/// One event consumed from any run position: finished and failed runs
/// absorb everything.
pub open spec fn consume(rs: RunV, ev: EventV, p: Seq<Seq<char>>) -> RunV {
    match rs {
        RunV::Going(st, out) => step_spec(st, out, ev, p),
        _ => rs,
    }
}

/// A whole event sequence consumed from a run position.
pub open spec fn consume_from(rs: RunV, evs: Seq<EventV>, p: Seq<Seq<char>>) -> RunV
    decreases evs.len(),
{
    if evs.len() == 0 {
        rs
    } else {
        consume(consume_from(rs, evs.drop_last(), p), evs.last(), p)
    }
}

/// A whole event sequence consumed from the start of a pass.
pub open spec fn consume_all(evs: Seq<EventV>, p: Seq<Seq<char>>) -> RunV {
    consume_from(RunV::Going(init_state(), seq![]), evs, p)
}

/// The result of a pass over a finite event sequence: the output written,
/// or the error that aborted the run. A sequence that ends inside a skipped
/// subtree means the removed element never closed.
pub open spec fn run_spec(evs: Seq<EventV>, p: Seq<Seq<char>>) -> Result<Seq<u8>, ErrorV> {
    match consume_all(evs, p) {
        RunV::Done(out) => Ok(out),
        RunV::Failed(e) => Err(e),
        RunV::Going(st, out) => if st.skipping {
            Err(ErrorV::MalformedXml)
        } else {
            Ok(out)
        },
    }
}

/// The images of a whole event list.
pub open spec fn events_view(evs: Seq<XmlEvent>) -> Seq<EventV> {
    evs.map_values(|e: XmlEvent| e@)
}

/// Consuming one more event is one transition.
pub proof fn lemma_consume_from_push(rs: RunV, s: Seq<EventV>, e: EventV, p: Seq<Seq<char>>)
    ensures
        consume_from(rs, s.push(e), p) == consume(consume_from(rs, s, p), e, p),
{
    assert(s.push(e).drop_last() =~= s);
    assert(s.push(e).last() == e);
}

/// Splitting an event sequence splits its consumption.
pub proof fn lemma_consume_from_append(rs: RunV, a: Seq<EventV>, b: Seq<EventV>, p: Seq<Seq<char>>)
    ensures
        consume_from(rs, a + b, p) == consume_from(consume_from(rs, a, p), b, p),
    decreases b.len(),
{
    if b.len() == 0 {
        assert(a + b =~= a);
    } else {
        lemma_consume_from_append(rs, a, b.drop_last(), p);
        assert((a + b).drop_last() =~= a + b.drop_last());
        assert((a + b).last() == b.last());
    }
}

/// A finished or failed run stays as it is, whatever else the stream holds.
pub proof fn lemma_consume_from_absorbs(rs: RunV, evs: Seq<EventV>, p: Seq<Seq<char>>)
    requires
        !(rs is Going),
    ensures
        consume_from(rs, evs, p) == rs,
    decreases evs.len(),
{
    if evs.len() > 0 {
        lemma_consume_from_absorbs(rs, evs.drop_last(), p);
    }
}

/// What one transition of the router reports to its caller.
pub enum StepOutcome {
    /// The pass goes on with the next event.
    Step,
    /// The end of input was reached; the output is complete.
    Finished,
    /// A fatal condition; the run aborts.
    Fatal(FilterError),
}

/// Performs one transition of the router: inspects one event against the
/// current state, writes what is forwarded, and reports how the pass goes
/// on. The outcome and the new state and output are exactly what
/// [`step_spec`] lays down for the old ones.
pub fn step(st: &mut FilterState, ev: &XmlEvent, prefixes: &Vec<String>, out: &mut Vec<u8>) -> (r:
    StepOutcome)
    ensures
        match r {
            StepOutcome::Step => step_spec(
                *old(st),
                old(out)@,
                ev@,
                prefixes_view(prefixes@),
            ) == RunV::Going(*final(st), final(out)@),
            StepOutcome::Finished => step_spec(
                *old(st),
                old(out)@,
                ev@,
                prefixes_view(prefixes@),
            ) == RunV::Done(final(out)@),
            StepOutcome::Fatal(e) => step_spec(
                *old(st),
                old(out)@,
                ev@,
                prefixes_view(prefixes@),
            ) == RunV::Failed(e@),
        },
{
    if st.skipping {
        match ev {
            XmlEvent::End(n) => {
                let bm = bookmark_tag();
                if bytes_eq(n, &bm) {
                    st.skipping = false;
                    st.swallow = true;
                }
                StepOutcome::Step
            },
            XmlEvent::Eof => StepOutcome::Fatal(FilterError::MalformedXml),
            _ => StepOutcome::Step,
        }
    } else {
        match ev {
            XmlEvent::Start(attrs, c) => {
                let bm = bookmark_tag();
                if tag_name_matches(c, &bm) {
                    match classify(attrs) {
                        Err(e) => {
                            return StepOutcome::Fatal(e);
                        },
                        Ok(UriClass::Local(path)) => {
                            if path_needs_cleaning(prefixes, &path) {
                                st.skipping = true;
                                return StepOutcome::Step;
                            }
                        },
                        Ok(UriClass::NonLocal) => {},
                    }
                }
                emit_event(ev, out);
                StepOutcome::Step
            },
            XmlEvent::Text(t) => {
                if st.swallow {
                    st.swallow = false;
                    match unescape_text(t) {
                        Ok(u) => {
                            if all_whitespace(&u) {
                                StepOutcome::Step
                            } else {
                                StepOutcome::Fatal(FilterError::StructuralAssumptionViolated)
                            }
                        },
                        Err(e) => StepOutcome::Fatal(e),
                    }
                } else {
                    emit_event(ev, out);
                    StepOutcome::Step
                }
            },
            XmlEvent::End(_) => {
                emit_event(ev, out);
                StepOutcome::Step
            },
            XmlEvent::Empty(_) => {
                emit_event(ev, out);
                StepOutcome::Step
            },
            XmlEvent::Decl(_) => {
                emit_event(ev, out);
                StepOutcome::Step
            },
            XmlEvent::Eof => StepOutcome::Finished,
            XmlEvent::Other => StepOutcome::Fatal(FilterError::MalformedXml),
        }
    }
}

/// Runs the whole router over a finite event list: the result is exactly
/// what [`run_spec`] lays down for the events and prefixes given.
pub fn run_filter(events: &Vec<XmlEvent>, prefixes: &Vec<String>) -> (r: Result<
    Vec<u8>,
    FilterError,
>)
    ensures
        match r {
            Ok(out) => run_spec(events_view(events@), prefixes_view(prefixes@)) == Ok::<
                Seq<u8>,
                ErrorV,
            >(out@),
            Err(e) => run_spec(events_view(events@), prefixes_view(prefixes@)) == Err::<
                Seq<u8>,
                ErrorV,
            >(e@),
        },
{
    let ghost evs = events_view(events@);
    let ghost p = prefixes_view(prefixes@);
    let mut st = FilterState { skipping: false, swallow: false };
    let mut out: Vec<u8> = Vec::new();
    let mut i: usize = 0;
    while i < events.len()
        invariant
            i <= events@.len(),
            evs == events_view(events@),
            evs.len() == events@.len(),
            forall|j: int| 0 <= j < evs.len() ==> evs[j] == events@[j]@,
            p == prefixes_view(prefixes@),
            consume_from(RunV::Going(init_state(), seq![]), evs.take(i as int), p)
                == RunV::Going(st, out@),
        decreases events.len() - i,
    {
        let outcome = step(&mut st, &events[i], prefixes, &mut out);
        proof {
            lemma_consume_from_push(RunV::Going(init_state(), seq![]), evs.take(i as int), evs[i as int], p);
            assert(evs.take(i as int).push(evs[i as int]) =~= evs.take(i + 1));
        }
        match outcome {
            StepOutcome::Step => {},
            StepOutcome::Finished => {
                proof {
                    lemma_consume_from_absorbs(RunV::Done(out@), evs.skip(i + 1), p);
                    assert(evs.take(i + 1) + evs.skip(i + 1) =~= evs);
                    lemma_consume_from_append(
                        RunV::Going(init_state(), seq![]),
                        evs.take(i + 1),
                        evs.skip(i + 1),
                        p,
                    );
                }
                return Ok(out);
            },
            StepOutcome::Fatal(e) => {
                proof {
                    lemma_consume_from_absorbs(RunV::Failed(e@), evs.skip(i + 1), p);
                    assert(evs.take(i + 1) + evs.skip(i + 1) =~= evs);
                    lemma_consume_from_append(
                        RunV::Going(init_state(), seq![]),
                        evs.take(i + 1),
                        evs.skip(i + 1),
                        p,
                    );
                }
                return Err(e);
            },
        }
        i += 1;
    }
    proof {
        assert(evs.take(evs.len() as int) =~= evs);
    }
    if st.skipping {
        Err(FilterError::MalformedXml)
    } else {
        Ok(out)
    }
}

} // verus!
