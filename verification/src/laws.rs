//! The laws the filter obeys, each proved against the router's own
//! transition function.

use vstd::prelude::*;

use crate::classify::{
    classify_href, href_values, matches_any_prefix, non_local_scheme, scheme_file, scheme_ftp,
    scheme_mtp, scheme_sftp, scheme_trash, start_verdict, starts_with, UriClassV,
};
use crate::decode::decoded_href;
use crate::events::{bookmark_name, frame_of, tag_name_of, AttrV, EventV};
use crate::router::{
    all_ws, consume, consume_all, consume_from, init_state, lemma_consume_from_absorbs,
    lemma_consume_from_append, lemma_consume_from_push, run_spec, step_spec, xml_unescaped,
    FilterState, RunV,
};
use crate::source::lexed_events;
use crate::ErrorV;

verus! {

/// Whether one event passes through the forwarding state untouched: no
/// construct the router refuses, no end of input, and no bookmark start
/// whose verdict is removal or an error.
pub open spec fn event_forwards(ev: EventV, p: Seq<Seq<char>>) -> bool {
    match ev {
        EventV::Start(attrs, c) => tag_name_of(c) == bookmark_name() ==> start_verdict(attrs, p)
            == Ok::<bool, ErrorV>(false),
        EventV::End(_) => true,
        EventV::Empty(_) => true,
        EventV::Text(_) => true,
        EventV::Decl(_) => true,
        EventV::Other => false,
        EventV::Eof => false,
        EventV::Fault => false,
    }
}

/// The framed bytes of a whole event sequence.
pub open spec fn frames_of(evs: Seq<EventV>) -> Seq<u8>
    decreases evs.len(),
{
    if evs.len() == 0 {
        seq![]
    } else {
        frames_of(evs.drop_last()) + frame_of(evs.last())
    }
}

/// A sequence of events that all forward passes through the router
/// unchanged: the state stays at its initial value and the output grows by
/// exactly the events' framed bytes.
pub proof fn lemma_forward_seq(evs: Seq<EventV>, p: Seq<Seq<char>>, out: Seq<u8>)
    requires
        forall|i: int| 0 <= i < evs.len() ==> event_forwards(#[trigger] evs[i], p),
    ensures
        consume_from(RunV::Going(init_state(), out), evs, p) == RunV::Going(
            init_state(),
            out + frames_of(evs),
        ),
    decreases evs.len(),
{
    if evs.len() == 0 {
        assert(out + frames_of(evs) =~= out);
    } else {
        let dl = evs.drop_last();
        assert(forall|i: int| 0 <= i < dl.len() ==> event_forwards(#[trigger] dl[i], p)) by {
            assert(forall|i: int| 0 <= i < dl.len() ==> dl[i] == evs[i]);
        }
        lemma_forward_seq(dl, p, out);
        assert(out + frames_of(dl) + frame_of(evs.last()) =~= out + frames_of(evs));
    }
}

/// Law (idempotence of no match): when no event of the document is removed
/// or fatal — with an empty prefix set, or one matching no bookmark, and
/// every href recognized — the run succeeds and the output holds the input
/// events' bytes unchanged, byte for byte.
pub proof fn lemma_no_match_identity(evs: Seq<EventV>, p: Seq<Seq<char>>)
    requires
        forall|i: int| 0 <= i < evs.len() ==> event_forwards(#[trigger] evs[i], p),
    ensures
        consume_all(evs.push(EventV::Eof), p) == RunV::Done(frames_of(evs)),
        run_spec(evs.push(EventV::Eof), p) == Ok::<Seq<u8>, ErrorV>(frames_of(evs)),
{
    lemma_forward_seq(evs, p, seq![]);
    lemma_consume_from_push(RunV::Going(init_state(), seq![]), evs, EventV::Eof, p);
    assert(Seq::<u8>::empty() + frames_of(evs) =~= frames_of(evs));
}

/// An empty prefix set matches no path, so a bookmark that classifies
/// without error always forwards.
pub proof fn lemma_empty_prefixes_forward(ev: EventV, p: Seq<Seq<char>>)
    requires
        p.len() == 0,
        match ev {
            EventV::Start(attrs, c) => tag_name_of(c) == bookmark_name()
                ==> crate::classify::classify_attrs(attrs) is Ok,
            EventV::Other => false,
            EventV::Eof => false,
            EventV::Fault => false,
            _ => true,
        },
    ensures
        event_forwards(ev, p),
{
}

/// Law (prefix looseness): the removal test is an exact character prefix,
/// not a path-segment one — a path that merely continues a prefix of the
/// set, with nothing said of a separator between them, still matches.
pub proof fn lemma_prefix_is_exact_string(
    prefix: Seq<char>,
    rest: Seq<char>,
    prefixes: Seq<Seq<char>>,
    k: int,
)
    requires
        0 <= k < prefixes.len(),
        prefixes[k] == prefix,
    ensures
        matches_any_prefix(prefixes, prefix + rest),
{
    assert(starts_with(prefix + rest, prefix)) by {
        assert(forall|i: int| 0 <= i < prefix.len() ==> (prefix + rest)[i] == prefix[i]);
    }
}

/// Whether an event opens a bookmark whose verdict is removal.
pub open spec fn opens_removed(ev: EventV, p: Seq<Seq<char>>) -> bool {
    match ev {
        EventV::Start(attrs, c) => tag_name_of(c) == bookmark_name() && start_verdict(attrs, p)
            == Ok::<bool, ErrorV>(true),
        _ => false,
    }
}

/// Whether an event is the end tag named `bookmark`, which closes a skip.
pub open spec fn closes_bookmark(ev: EventV) -> bool {
    match ev {
        EventV::End(n) => n == bookmark_name(),
        _ => false,
    }
}

/// Whether the skip discards an event without leaving the skip: anything
/// but the closing end tag, the end of input and a lexing fault.
pub open spec fn skippable(ev: EventV) -> bool {
    !closes_bookmark(ev) && !(ev is Eof) && !(ev is Fault)
}

/// A removed bookmark's subtree: a start tag whose verdict is removal, any
/// run of skippable events, and the matching end tag.
pub open spec fn removed_block(b: Seq<EventV>, p: Seq<Seq<char>>) -> bool {
    &&& b.len() >= 2
    &&& opens_removed(b[0], p)
    &&& closes_bookmark(b.last())
    &&& forall|i: int| 1 <= i < b.len() - 1 ==> skippable(#[trigger] b[i])
}

/// Consuming a single event is one transition.
pub proof fn lemma_consume_single(rs: RunV, e: EventV, p: Seq<Seq<char>>)
    ensures
        consume_from(rs, seq![e], p) == consume(rs, e, p),
{
    assert(seq![e].drop_last() =~= Seq::<EventV>::empty());
    assert(consume_from(rs, Seq::<EventV>::empty(), p) == rs);
    assert(seq![e].last() == e);
}

/// While skipping, a run of skippable events changes nothing: not the
/// state, and not a byte of the output.
pub proof fn lemma_skip_seq(evs: Seq<EventV>, p: Seq<Seq<char>>, st: FilterState, out: Seq<u8>)
    requires
        st.skipping,
        forall|i: int| 0 <= i < evs.len() ==> skippable(#[trigger] evs[i]),
    ensures
        consume_from(RunV::Going(st, out), evs, p) == RunV::Going(st, out),
    decreases evs.len(),
{
    if evs.len() > 0 {
        let dl = evs.drop_last();
        assert(forall|i: int| 0 <= i < dl.len() ==> skippable(#[trigger] dl[i])) by {
            assert(forall|i: int| 0 <= i < dl.len() ==> dl[i] == evs[i]);
        }
        lemma_skip_seq(dl, p, st, out);
    }
}

/// A removed block followed by a whitespace text node leaves no trace: the
/// router returns to the fresh forwarding state and the output is untouched.
pub proof fn lemma_removed_block(
    b: Seq<EventV>,
    t: Seq<u8>,
    p: Seq<Seq<char>>,
    st: FilterState,
    out: Seq<u8>,
)
    requires
        !st.skipping,
        removed_block(b, p),
        xml_unescaped(t) matches Some(u) && all_ws(u),
    ensures
        consume_from(RunV::Going(st, out), b + seq![EventV::Text(t)], p) == RunV::Going(
            init_state(),
            out,
        ),
{
    let first = seq![b[0]];
    let middle = b.subrange(1, b.len() - 1);
    let closer = seq![b.last()];
    let swallowed = seq![EventV::Text(t)];
    let skipping = FilterState { skipping: true, swallow: st.swallow };
    lemma_consume_single(RunV::Going(st, out), b[0], p);
    assert(consume_from(RunV::Going(st, out), first, p) == RunV::Going(skipping, out));
    assert(forall|i: int| 0 <= i < middle.len() ==> skippable(#[trigger] middle[i])) by {
        assert(forall|i: int| 0 <= i < middle.len() ==> middle[i] == b[i + 1]);
    }
    lemma_skip_seq(middle, p, skipping, out);
    lemma_consume_from_append(RunV::Going(st, out), first, middle, p);
    assert(consume_from(RunV::Going(st, out), first + middle, p) == RunV::Going(skipping, out));
    let armed = FilterState { skipping: false, swallow: true };
    lemma_consume_single(RunV::Going(skipping, out), b.last(), p);
    assert(consume_from(RunV::Going(skipping, out), closer, p) == RunV::Going(armed, out));
    lemma_consume_from_append(RunV::Going(st, out), first + middle, closer, p);
    assert(first + middle + closer =~= b);
    assert(consume_from(RunV::Going(st, out), b, p) == RunV::Going(armed, out));
    lemma_consume_single(RunV::Going(armed, out), EventV::Text(t), p);
    assert(consume_from(RunV::Going(armed, out), swallowed, p) == RunV::Going(init_state(), out));
    lemma_consume_from_append(RunV::Going(st, out), b, swallowed, p);
}

/// One piece of a well-shaped document: an event that is forwarded, or a
/// removed bookmark block with the whitespace text node that followed it.
pub enum DocItem {
    Fwd(EventV),
    Removed(Seq<EventV>, Seq<u8>),
}

/// Whether one document piece is well-shaped for the prefix set.
pub open spec fn item_ok(it: DocItem, p: Seq<Seq<char>>) -> bool {
    match it {
        DocItem::Fwd(ev) => event_forwards(ev, p),
        DocItem::Removed(b, t) => removed_block(b, p) && (xml_unescaped(t) matches Some(u)
            && all_ws(u)),
    }
}

/// The events of one document piece.
pub open spec fn item_events(it: DocItem) -> Seq<EventV> {
    match it {
        DocItem::Fwd(ev) => seq![ev],
        DocItem::Removed(b, t) => b + seq![EventV::Text(t)],
    }
}

/// The bytes one document piece leaves in the output: a forwarded event's
/// frame; nothing of a removed block.
pub open spec fn item_bytes(it: DocItem) -> Seq<u8> {
    match it {
        DocItem::Fwd(ev) => frame_of(ev),
        DocItem::Removed(_, _) => seq![],
    }
}

/// The events of a whole document, piece after piece.
pub open spec fn doc_events(items: Seq<DocItem>) -> Seq<EventV>
    decreases items.len(),
{
    if items.len() == 0 {
        seq![]
    } else {
        doc_events(items.drop_last()) + item_events(items.last())
    }
}

/// The bytes a whole document leaves in the output.
pub open spec fn doc_bytes(items: Seq<DocItem>) -> Seq<u8>
    decreases items.len(),
{
    if items.len() == 0 {
        seq![]
    } else {
        doc_bytes(items.drop_last()) + item_bytes(items.last())
    }
}

/// A well-shaped document passes through the router piece by piece: each
/// forwarded event adds its frame, each removed block and its text node
/// add nothing, and the state returns to fresh forwarding after every piece.
pub proof fn lemma_doc_going(items: Seq<DocItem>, p: Seq<Seq<char>>, out: Seq<u8>)
    requires
        forall|i: int| 0 <= i < items.len() ==> item_ok(#[trigger] items[i], p),
    ensures
        consume_from(RunV::Going(init_state(), out), doc_events(items), p) == RunV::Going(
            init_state(),
            out + doc_bytes(items),
        ),
    decreases items.len(),
{
    if items.len() == 0 {
        assert(out + doc_bytes(items) =~= out);
    } else {
        let dl = items.drop_last();
        assert(forall|i: int| 0 <= i < dl.len() ==> item_ok(#[trigger] dl[i], p)) by {
            assert(forall|i: int| 0 <= i < dl.len() ==> dl[i] == items[i]);
        }
        lemma_doc_going(dl, p, out);
        lemma_consume_from_append(
            RunV::Going(init_state(), out),
            doc_events(dl),
            item_events(items.last()),
            p,
        );
        let mid = out + doc_bytes(dl);
        match items.last() {
            DocItem::Fwd(ev) => {
                let single = seq![ev];
                lemma_consume_single(RunV::Going(init_state(), mid), ev, p);
                assert(consume_from(RunV::Going(init_state(), mid), single, p) == RunV::Going(
                    init_state(),
                    mid + frame_of(ev),
                ));
                assert(mid + frame_of(ev) =~= out + doc_bytes(items));
            },
            DocItem::Removed(b, t) => {
                lemma_removed_block(b, t, p, init_state(), mid);
                assert(mid =~= out + doc_bytes(items));
            },
        }
    }
}

/// Law (removal correctness): over a document made of forwarded events and
/// removed bookmark blocks, each block followed by its whitespace text
/// node, the run succeeds and the output holds exactly the forwarded
/// events' bytes, in their original order and form — one text node gone per
/// removed block, nothing else touched.
pub proof fn lemma_removal_correctness(items: Seq<DocItem>, p: Seq<Seq<char>>)
    requires
        forall|i: int| 0 <= i < items.len() ==> item_ok(#[trigger] items[i], p),
    ensures
        consume_all(doc_events(items).push(EventV::Eof), p) == RunV::Done(doc_bytes(items)),
        run_spec(doc_events(items).push(EventV::Eof), p) == Ok::<Seq<u8>, ErrorV>(
            doc_bytes(items),
        ),
{
    lemma_doc_going(items, p, seq![]);
    lemma_consume_from_push(
        RunV::Going(init_state(), seq![]),
        doc_events(items),
        EventV::Eof,
        p,
    );
    assert(Seq::<u8>::empty() + doc_bytes(items) =~= doc_bytes(items));
}

/// Law (idempotence of no match, whole-document form): when the lexed
/// stream of a document reaches the end of input and every event before it
/// forwards — no removal, no fatal condition — the run over that document
/// succeeds and returns the events' bytes unchanged, byte for byte.
pub proof fn lemma_no_match_identity_document(b: Seq<u8>, p: Seq<Seq<char>>)
    requires
        lexed_events(b).len() >= 1,
        lexed_events(b).last() == EventV::Eof,
        forall|i: int| 0 <= i < lexed_events(b).len() - 1 ==> event_forwards(
            #[trigger] lexed_events(b)[i],
            p,
        ),
    ensures
        run_spec(lexed_events(b), p) == Ok::<Seq<u8>, ErrorV>(
            frames_of(lexed_events(b).drop_last()),
        ),
{
    let evs = lexed_events(b);
    let body = evs.drop_last();
    assert(forall|i: int| 0 <= i < body.len() ==> event_forwards(#[trigger] body[i], p)) by {
        assert(forall|i: int| 0 <= i < body.len() ==> body[i] == evs[i]);
    }
    lemma_no_match_identity(body, p);
    assert(body.push(EventV::Eof) =~= evs);
}

/// Law (removal correctness, whole-document form): when the lexed stream of
/// a document is a row of forwarded events and removed bookmark blocks,
/// each block with its whitespace text node, closed by the end of input,
/// the run over that document succeeds and returns exactly the forwarded
/// events' bytes — one text node gone per removed block, nothing else
/// touched.
pub proof fn lemma_removal_correctness_document(
    b: Seq<u8>,
    items: Seq<DocItem>,
    p: Seq<Seq<char>>,
)
    requires
        lexed_events(b) == doc_events(items).push(EventV::Eof),
        forall|i: int| 0 <= i < items.len() ==> item_ok(#[trigger] items[i], p),
    ensures
        run_spec(lexed_events(b), p) == Ok::<Seq<u8>, ErrorV>(doc_bytes(items)),
{
    lemma_removal_correctness(items, p);
}

/// Law (scheme allow-list): an href whose decoded text opens with
/// `trash://`, `mtp://`, `ftp://` or `sftp://` classifies as non-local —
/// for every prefix set, since the classification never consults one.
pub proof fn lemma_non_local_scheme_classifies(d: Seq<char>)
    requires
        non_local_scheme(d),
    ensures
        classify_href(d) == Ok::<UriClassV, ErrorV>(UriClassV::NonLocal),
{
    assert(!starts_with(d, scheme_file())) by {
        if starts_with(d, scheme_trash()) {
            assert(d[0] == 't' && scheme_file()[0] == 'f');
        } else if starts_with(d, scheme_mtp()) {
            assert(d[0] == 'm' && scheme_file()[0] == 'f');
        } else if starts_with(d, scheme_ftp()) {
            assert(d[1] == 't' && scheme_file()[1] == 'i');
        } else {
            assert(d[0] == 's' && scheme_file()[0] == 'f');
        }
    }
}

/// Law (scheme allow-list, router form): a bookmark start tag whose single
/// href decodes to a recognized non-local scheme is forwarded unchanged,
/// whatever the prefix set holds.
pub proof fn lemma_non_local_start_forwards(
    attrs: Seq<AttrV>,
    c: Seq<u8>,
    st: FilterState,
    out: Seq<u8>,
    p: Seq<Seq<char>>,
)
    requires
        !st.skipping,
        href_values(attrs).len() == 1,
        non_local_scheme(decoded_href(href_values(attrs)[0])),
    ensures
        step_spec(st, out, EventV::Start(attrs, c), p) == RunV::Going(
            st,
            out + frame_of(EventV::Start(attrs, c)),
        ),
{
    lemma_non_local_scheme_classifies(decoded_href(href_values(attrs)[0]));
}

/// Law (scheme allow-list, whole-run form): a bookmark start tag whose
/// single href decodes to a recognized non-local scheme forwards, so the
/// whole-document laws count it among the events the output reproduces
/// unchanged — for every prefix set.
pub proof fn lemma_non_local_event_forwards(attrs: Seq<AttrV>, c: Seq<u8>, p: Seq<Seq<char>>)
    requires
        href_values(attrs).len() == 1,
        non_local_scheme(decoded_href(href_values(attrs)[0])),
    ensures
        event_forwards(EventV::Start(attrs, c), p),
{
    lemma_non_local_scheme_classifies(decoded_href(href_values(attrs)[0]));
}

/// Law (unrecognized scheme): an href whose decoded text opens with none
/// of the five recognized schemes classifies as the fatal error that
/// carries the decoded href.
pub proof fn lemma_unrecognized_scheme_classifies(d: Seq<char>)
    requires
        !starts_with(d, scheme_file()),
        !non_local_scheme(d),
    ensures
        classify_href(d) == Err::<UriClassV, ErrorV>(ErrorV::UnrecognizedScheme(d)),
{
}

/// Law (unrecognized scheme aborts the run): once a forwarded bookmark's
/// verdict is a fatal error, the whole run fails with that error — nothing
/// later in the stream is ever written.
pub proof fn lemma_fatal_start_aborts_run(
    attrs: Seq<AttrV>,
    c: Seq<u8>,
    e: ErrorV,
    st: FilterState,
    out: Seq<u8>,
    p: Seq<Seq<char>>,
    rest: Seq<EventV>,
)
    requires
        !st.skipping,
        tag_name_of(c) == bookmark_name(),
        start_verdict(attrs, p) == Err::<bool, ErrorV>(e),
    ensures
        consume_from(RunV::Going(st, out), seq![EventV::Start(attrs, c)] + rest, p)
            == RunV::Failed(e),
{
    let opener = seq![EventV::Start(attrs, c)];
    lemma_consume_single(RunV::Going(st, out), EventV::Start(attrs, c), p);
    assert(consume_from(RunV::Going(st, out), opener, p) == RunV::Failed(e));
    lemma_consume_from_append(RunV::Going(st, out), opener, rest, p);
    lemma_consume_from_absorbs(RunV::Failed(e), rest, p);
}

/// Law (unrecognized scheme, whole-document form): when the lexed stream of
/// a document reaches, after any row of forwarded events, a bookmark start
/// tag whose verdict is a fatal error, the run over that document fails
/// with that error — whatever else the stream holds, no output counts.
pub proof fn lemma_fatal_start_aborts_document(
    b: Seq<u8>,
    pre: Seq<EventV>,
    attrs: Seq<AttrV>,
    c: Seq<u8>,
    e: ErrorV,
    rest: Seq<EventV>,
    p: Seq<Seq<char>>,
)
    requires
        lexed_events(b) == pre + seq![EventV::Start(attrs, c)] + rest,
        forall|i: int| 0 <= i < pre.len() ==> event_forwards(#[trigger] pre[i], p),
        tag_name_of(c) == bookmark_name(),
        start_verdict(attrs, p) == Err::<bool, ErrorV>(e),
    ensures
        run_spec(lexed_events(b), p) == Err::<Seq<u8>, ErrorV>(e),
{
    lemma_forward_seq(pre, p, seq![]);
    assert(Seq::<u8>::empty() + frames_of(pre) =~= frames_of(pre));
    lemma_fatal_start_aborts_run(attrs, c, e, init_state(), frames_of(pre), p, rest);
    lemma_consume_from_append(
        RunV::Going(init_state(), seq![]),
        pre,
        seq![EventV::Start(attrs, c)] + rest,
        p,
    );
    assert(pre + (seq![EventV::Start(attrs, c)] + rest) =~= lexed_events(b));
}

} // verus!
