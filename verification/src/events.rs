//! The lexical units of the document, and how each one is written out again.

use vstd::prelude::*;

verus! {

/// The byte `<`.
pub const LT: u8 = 60;

/// The byte `>`.
pub const GT: u8 = 62;

/// The byte `/`.
pub const SLASH: u8 = 47;

/// The byte `?`.
pub const QMARK: u8 = 63;

/// The blank byte.
pub const SP: u8 = 32;

/// The carriage-return byte.
pub const CR: u8 = 13;

/// The line-feed byte.
pub const LF: u8 = 10;

/// The tab byte.
pub const TAB: u8 = 9;

/// One attribute slot as the lexer hands it out: a parsed key/value pair,
/// or a slot the lexer could not parse (which the filter skips over).
#[derive(Debug, Clone, PartialEq, Eq)]
pub enum AttrItem {
    Pair(Vec<u8>, Vec<u8>),
    Bad,
}

/// The image of an [`AttrItem`] in specifications.
pub enum AttrV {
    Pair(Seq<u8>, Seq<u8>),
    Bad,
}

impl View for AttrItem {
    type V = AttrV;

    open spec fn view(&self) -> AttrV {
        match self {
            AttrItem::Pair(k, v) => AttrV::Pair(k@, v@),
            AttrItem::Bad => AttrV::Bad,
        }
    }
}

/// One lexical unit of the document. Tag payloads hold the raw bytes
/// between the angle brackets, exactly as they stood in the input.
#[derive(Debug, Clone, PartialEq, Eq)]
pub enum XmlEvent {
    /// `<name attrs...>`: the attribute list, and the content between `<` and `>`.
    Start(Vec<AttrItem>, Vec<u8>),
    /// `</name>`: the name, trailing whitespace already trimmed by the lexer.
    End(Vec<u8>),
    /// `<name attrs.../>`: the content between `<` and `/>`.
    Empty(Vec<u8>),
    /// Character data between tags, still escaped.
    Text(Vec<u8>),
    /// `<?xml ...?>`: the content between `<?` and `?>`.
    Decl(Vec<u8>),
    /// A construct this filter does not understand (comment, CDATA, ...).
    Other,
    /// End of input.
    Eof,
}

/// The image of an [`XmlEvent`] in specifications, with one more variant:
/// `Fault` marks the point where the lexer could not go on. No executable
/// event carries it; the name for the lexed stream uses it so that a lexing
/// failure is visible to the router's transition function.
pub enum EventV {
    Start(Seq<AttrV>, Seq<u8>),
    End(Seq<u8>),
    Empty(Seq<u8>),
    Text(Seq<u8>),
    Decl(Seq<u8>),
    Other,
    Eof,
    Fault,
}

/// Whether an event ends a lexed stream: the end of input, or the point
/// where the lexer failed. Every lexed stream ends with one of the two.
pub open spec fn is_terminal(ev: EventV) -> bool {
    ev is Eof || ev is Fault
}

/// The images of a whole attribute list.
pub open spec fn attrs_view(a: Seq<AttrItem>) -> Seq<AttrV> {
    a.map_values(|x: AttrItem| x@)
}

impl View for XmlEvent {
    type V = EventV;

    open spec fn view(&self) -> EventV {
        match self {
            XmlEvent::Start(a, c) => EventV::Start(attrs_view(a@), c@),
            XmlEvent::End(n) => EventV::End(n@),
            XmlEvent::Empty(c) => EventV::Empty(c@),
            XmlEvent::Text(t) => EventV::Text(t@),
            XmlEvent::Decl(c) => EventV::Decl(c@),
            XmlEvent::Other => EventV::Other,
            XmlEvent::Eof => EventV::Eof,
        }
    }
}

/// A byte the lexer counts as whitespace inside markup: blank, carriage
/// return, line feed or tab.
pub open spec fn is_ws_byte(b: u8) -> bool {
    b == SP || b == CR || b == LF || b == TAB
}

/// How many leading bytes of a tag's content form its name: the name runs
/// to the first markup whitespace byte, or to the end.
pub open spec fn name_len_of(c: Seq<u8>) -> int
    decreases c.len(),
{
    if c.len() == 0 || is_ws_byte(c[0]) {
        0
    } else {
        1 + name_len_of(c.drop_first())
    }
}

/// The name of a start or empty tag with content `c`.
pub open spec fn tag_name_of(c: Seq<u8>) -> Seq<u8> {
    c.take(name_len_of(c))
}

pub proof fn lemma_name_len(c: Seq<u8>)
    ensures
        0 <= name_len_of(c) <= c.len(),
        forall|i: int| 0 <= i < name_len_of(c) ==> !is_ws_byte(c[i]),
        name_len_of(c) < c.len() ==> is_ws_byte(c[name_len_of(c)]),
    decreases c.len(),
{
    if c.len() == 0 || is_ws_byte(c[0]) {
    } else {
        lemma_name_len(c.drop_first());
        assert(forall|i: int| 0 <= i < name_len_of(c) ==> !is_ws_byte(c[i])) by {
            assert forall|i: int| 0 <= i < name_len_of(c) implies !is_ws_byte(c[i]) by {
                if i > 0 {
                    assert(c.drop_first()[i - 1] == c[i]);
                }
            }
        }
        if name_len_of(c) < c.len() {
            assert(c.drop_first()[name_len_of(c) - 1] == c[name_len_of(c)]);
        }
    }
}

/// The name length is pinned down by its characterization: no whitespace
/// before it, and whitespace (or the end of the content) at it.
pub proof fn lemma_name_len_unique(c: Seq<u8>, n: int)
    requires
        0 <= n <= c.len(),
        forall|i: int| 0 <= i < n ==> !is_ws_byte(c[i]),
        n < c.len() ==> is_ws_byte(c[n]),
    ensures
        name_len_of(c) == n,
    decreases c.len(),
{
    if c.len() == 0 || is_ws_byte(c[0]) {
        assert(n == 0);
    } else {
        assert(n > 0);
        lemma_name_len_unique(c.drop_first(), n - 1);
    }
}

/// The name of the `bookmark` element, whose subtrees are candidates for
/// removal.
pub open spec fn bookmark_name() -> Seq<u8> {
    seq![98u8, 111u8, 111u8, 107u8, 109u8, 97u8, 114u8, 107u8]
}

/// The name `bookmark` as a byte vector.
pub fn bookmark_tag() -> (r: Vec<u8>)
    ensures
        r@ == bookmark_name(),
{
    let mut r: Vec<u8> = Vec::new();
    r.push(98);
    r.push(111);
    r.push(111);
    r.push(107);
    r.push(109);
    r.push(97);
    r.push(114);
    r.push(107);
    proof {
        assert(r@ =~= bookmark_name());
    }
    r
}

/// Whether two byte vectors hold the same bytes.
pub fn bytes_eq(a: &Vec<u8>, b: &Vec<u8>) -> (r: bool)
    ensures
        r == (a@ == b@),
{
    if a.len() != b.len() {
        proof {
            assert(a@ != b@);
        }
        return false;
    }
    let mut i: usize = 0;
    while i < a.len()
        invariant
            i <= a.len(),
            a@.len() == b@.len(),
            forall|j: int| 0 <= j < i ==> a@[j] == b@[j],
        decreases a.len() - i,
    {
        if a[i] != b[i] {
            return false;
        }
        i += 1;
    }
    proof {
        assert(a@ =~= b@);
    }
    true
}

/// Whether the name of a tag with content `c` is `w`.
pub fn tag_name_matches(c: &Vec<u8>, w: &Vec<u8>) -> (r: bool)
    ensures
        r == (tag_name_of(c@) == w@),
{
    proof {
        lemma_name_len(c@);
    }
    let mut i: usize = 0;
    while i < c.len() && !byte_is_ws(c[i])
        invariant
            i <= c.len(),
            forall|j: int| 0 <= j < i ==> !is_ws_byte(c@[j]),
        decreases c.len() - i,
    {
        i += 1;
    }
    proof {
        lemma_name_len_unique(c@, i as int);
    }
    if i != w.len() {
        proof {
            assert(tag_name_of(c@).len() == i);
            assert(tag_name_of(c@) != w@);
        }
        return false;
    }
    let mut j: usize = 0;
    while j < i
        invariant
            j <= i,
            i <= c.len(),
            i == w.len(),
            name_len_of(c@) == i,
            forall|k: int| 0 <= k < j ==> c@[k] == w@[k],
        decreases i - j,
    {
        if c[j] != w[j] {
            proof {
                assert(tag_name_of(c@)[j as int] == c@[j as int]);
                assert(tag_name_of(c@) != w@);
            }
            return false;
        }
        j += 1;
    }
    proof {
        assert(tag_name_of(c@) =~= w@);
    }
    true
}

/// Whether `b` is a markup whitespace byte.
pub fn byte_is_ws(b: u8) -> (r: bool)
    ensures
        r == is_ws_byte(b),
{
    b == SP || b == CR || b == LF || b == TAB
}

/// The bytes that writing an event appends to the output: retained tags are
/// framed again with the same delimiters the lexer stripped, text is copied
/// as it stood, and the end of input adds nothing.
pub open spec fn frame_of(ev: EventV) -> Seq<u8> {
    match ev {
        EventV::Start(_, c) => seq![LT] + c + seq![GT],
        EventV::End(n) => seq![LT, SLASH] + n + seq![GT],
        EventV::Empty(c) => seq![LT] + c + seq![SLASH, GT],
        EventV::Text(t) => t,
        EventV::Decl(c) => seq![LT, QMARK] + c + seq![QMARK, GT],
        EventV::Other => seq![],
        EventV::Eof => seq![],
        EventV::Fault => seq![],
    }
}

/// Appends all of `b` to `out`.
pub fn push_bytes(out: &mut Vec<u8>, b: &Vec<u8>)
    ensures
        final(out)@ == old(out)@ + b@,
{
    let ghost out0 = out@;
    let mut i: usize = 0;
    while i < b.len()
        invariant
            i <= b.len(),
            out@ == out0 + b@.take(i as int),
        decreases b.len() - i,
    {
        out.push(b[i]);
        proof {
            assert(out0 + b@.take(i as int) + seq![b@[i as int]] =~= out0 + b@.take(i + 1));
        }
        i += 1;
    }
    proof {
        assert(out0 + b@.take(b@.len() as int) =~= out0 + b@);
    }
}

/// Writes one event to the output, byte for byte.
pub fn emit_event(ev: &XmlEvent, out: &mut Vec<u8>)
    ensures
        final(out)@ == old(out)@ + frame_of(ev@),
{
    let ghost out0 = out@;
    match ev {
        XmlEvent::Start(_, c) => {
            out.push(LT);
            push_bytes(out, c);
            out.push(GT);
            proof {
                assert(out@ =~= out0 + frame_of(ev@));
            }
        },
        XmlEvent::End(n) => {
            out.push(LT);
            out.push(SLASH);
            push_bytes(out, n);
            out.push(GT);
            proof {
                assert(out@ =~= out0 + frame_of(ev@));
            }
        },
        XmlEvent::Empty(c) => {
            out.push(LT);
            push_bytes(out, c);
            out.push(SLASH);
            out.push(GT);
            proof {
                assert(out@ =~= out0 + frame_of(ev@));
            }
        },
        XmlEvent::Text(t) => {
            push_bytes(out, t);
        },
        XmlEvent::Decl(c) => {
            out.push(LT);
            out.push(QMARK);
            push_bytes(out, c);
            out.push(QMARK);
            out.push(GT);
            proof {
                assert(out@ =~= out0 + frame_of(ev@));
            }
        },
        XmlEvent::Other => {
            proof {
                assert(out@ =~= out0 + frame_of(ev@));
            }
        },
        XmlEvent::Eof => {
            proof {
                assert(out@ =~= out0 + frame_of(ev@));
            }
        },
    }
}

} // verus!
