//! The URI classifier: extracts the single `href` attribute of a bookmark,
//! decodes it, sorts it by scheme, and tests local paths against the
//! caller's prefixes.

use vstd::prelude::*;

use crate::decode::{chars_of, decode_href, decoded_href};
use crate::events::{attrs_view, AttrItem, AttrV};
use crate::{ErrorV, FilterError};

verus! {

/// The bytes of the attribute key `href`.
pub open spec fn href_key() -> Seq<u8> {
    seq![104u8, 114u8, 101u8, 102u8]
}

/// The values of the attributes whose key is `href`, in order; slots the
/// lexer could not parse count as no attribute at all.
pub open spec fn href_values(attrs: Seq<AttrV>) -> Seq<Seq<u8>>
    decreases attrs.len(),
{
    if attrs.len() == 0 {
        seq![]
    } else {
        let rest = href_values(attrs.drop_first());
        match attrs[0] {
            AttrV::Pair(k, v) => if k == href_key() {
                seq![v] + rest
            } else {
                rest
            },
            AttrV::Bad => rest,
        }
    }
}

/// What a bookmark's href addresses: a local filesystem path, or a
/// recognized non-local scheme.
#[derive(Debug, Clone, PartialEq, Eq)]
pub enum UriClass {
    Local(Vec<char>),
    NonLocal,
}

/// The image of a [`UriClass`] in specifications.
pub enum UriClassV {
    Local(Seq<char>),
    NonLocal,
}

impl View for UriClass {
    type V = UriClassV;

    open spec fn view(&self) -> UriClassV {
        match self {
            UriClass::Local(p) => UriClassV::Local(p@),
            UriClass::NonLocal => UriClassV::NonLocal,
        }
    }
}

/// Whether `s` opens with the prefix `p`, character for character.
pub open spec fn starts_with(s: Seq<char>, p: Seq<char>) -> bool {
    p.len() <= s.len() && forall|i: int| 0 <= i < p.len() ==> s[i] == p[i]
}

/// The scheme prefix `file://`.
pub open spec fn scheme_file() -> Seq<char> {
    seq!['f', 'i', 'l', 'e', ':', '/', '/']
}

/// The scheme prefix `trash://`.
pub open spec fn scheme_trash() -> Seq<char> {
    seq!['t', 'r', 'a', 's', 'h', ':', '/', '/']
}

/// The scheme prefix `mtp://`.
pub open spec fn scheme_mtp() -> Seq<char> {
    seq!['m', 't', 'p', ':', '/', '/']
}

/// The scheme prefix `ftp://`.
pub open spec fn scheme_ftp() -> Seq<char> {
    seq!['f', 't', 'p', ':', '/', '/']
}

/// The scheme prefix `sftp://`.
pub open spec fn scheme_sftp() -> Seq<char> {
    seq!['s', 'f', 't', 'p', ':', '/', '/']
}

/// Whether the decoded href opens with a recognized non-local scheme, which
/// shields the bookmark from removal.
pub open spec fn non_local_scheme(d: Seq<char>) -> bool {
    starts_with(d, scheme_trash()) || starts_with(d, scheme_mtp()) || starts_with(d, scheme_ftp())
        || starts_with(d, scheme_sftp())
}

/// The classification of a decoded href: a `file://` href yields the path
/// behind the scheme, the four recognized non-local schemes pass, anything
/// else is a fatal error carrying the decoded href.
pub open spec fn classify_href(d: Seq<char>) -> Result<UriClassV, ErrorV> {
    if starts_with(d, scheme_file()) {
        Ok(UriClassV::Local(d.skip(scheme_file().len() as int)))
    } else if non_local_scheme(d) {
        Ok(UriClassV::NonLocal)
    } else {
        Err(ErrorV::UnrecognizedScheme(d))
    }
}

/// The classification of a bookmark tag from its attribute list: the tag
/// must carry exactly one `href`, whose decoded value is classified.
pub open spec fn classify_attrs(attrs: Seq<AttrV>) -> Result<UriClassV, ErrorV> {
    if href_values(attrs).len() != 1 {
        Err(ErrorV::MissingOrAmbiguousHref)
    } else {
        classify_href(decoded_href(href_values(attrs)[0]))
    }
}

/// Whether some prefix of the set opens the path. The test is an exact
/// character prefix, not a path-segment one: the prefix `/home/a` also
/// covers `/home/abc`.
pub open spec fn matches_any_prefix(prefixes: Seq<Seq<char>>, path: Seq<char>) -> bool {
    exists|i: int| 0 <= i < prefixes.len() && starts_with(path, prefixes[i])
}

/// The images of a prefix set.
pub open spec fn prefixes_view(p: Seq<String>) -> Seq<Seq<char>> {
    p.map_values(|s: String| s@)
}

/// What the router does with a bookmark start tag: `Ok(true)` removes the
/// subtree, `Ok(false)` forwards it, an error aborts the run.
pub open spec fn start_verdict(attrs: Seq<AttrV>, prefixes: Seq<Seq<char>>) -> Result<
    bool,
    ErrorV,
> {
    match classify_attrs(attrs) {
        Ok(UriClassV::Local(path)) => Ok(matches_any_prefix(prefixes, path)),
        Ok(UriClassV::NonLocal) => Ok(false),
        Err(e) => Err(e),
    }
}

/// The value of the single `href` attribute of a tag, or the error that
/// aborts the run when the tag has none or several.
pub fn href_attribute(attrs: &Vec<AttrItem>) -> (r: Result<Vec<u8>, FilterError>)
    ensures
        match r {
            Ok(v) => href_values(attrs_view(attrs@)) == seq![v@],
            Err(e) => href_values(attrs_view(attrs@)).len() != 1 && e@
                == ErrorV::MissingOrAmbiguousHref,
        },
{
    let ghost av = attrs_view(attrs@);
    let mut found: Option<Vec<u8>> = None;
    let mut i: usize = 0;
    while i < attrs.len()
        invariant
            i <= attrs.len(),
            av == attrs_view(attrs@),
            av.len() == attrs@.len(),
            forall|j: int| 0 <= j < av.len() ==> av[j] == attrs@[j]@,
            match found {
                None => href_values(av.take(i as int)).len() == 0,
                Some(v) => href_values(av.take(i as int)) == seq![v@],
            },
        decreases attrs.len() - i,
    {
        proof {
            lemma_href_values_take_step(av, i as int);
        }
        match &attrs[i] {
            AttrItem::Pair(k, v) => {
                let hk = href_key_bytes();
                if crate::events::bytes_eq(k, &hk) {
                    if found.is_some() {
                        proof {
                            lemma_href_values_len_grows(av, i + 1);
                        }
                        return Err(FilterError::MissingOrAmbiguousHref);
                    }
                    let mut copy: Vec<u8> = Vec::new();
                    crate::events::push_bytes(&mut copy, v);
                    found = Some(copy);
                }
            },
            AttrItem::Bad => {},
        }
        i += 1;
    }
    proof {
        assert(av.take(av.len() as int) =~= av);
    }
    match found {
        Some(v) => Ok(v),
        None => Err(FilterError::MissingOrAmbiguousHref),
    }
}

/// The contribution of one attribute to the href values.
pub open spec fn extra_of(a: AttrV) -> Seq<Seq<u8>> {
    match a {
        AttrV::Pair(k, v) => if k == href_key() {
            seq![v]
        } else {
            Seq::<Seq<u8>>::empty()
        },
        AttrV::Bad => Seq::<Seq<u8>>::empty(),
    }
}

/// Extending the scanned slice by one attribute extends its href values by
/// that attribute's contribution.
proof fn lemma_href_values_take_step(av: Seq<AttrV>, i: int)
    requires
        0 <= i < av.len(),
    ensures
        href_values(av.take(i + 1)) == href_values(av.take(i)) + extra_of(av[i]),
{
    lemma_href_values_append_one(av.take(i), av[i]);
    assert(av.take(i).push(av[i]) =~= av.take(i + 1));
}

/// The href values of a slice with one attribute appended.
proof fn lemma_href_values_append_one(s: Seq<AttrV>, a: AttrV)
    ensures
        href_values(s.push(a)) == href_values(s) + extra_of(a),
    decreases s.len(),
{
    let whole = s.push(a);
    if s.len() == 0 {
        assert(whole.drop_first() =~= Seq::<AttrV>::empty());
        assert(href_values(whole.drop_first()) == Seq::<Seq<u8>>::empty());
        match a {
            AttrV::Pair(k, v) => {
                if k == href_key() {
                    assert(href_values(whole) =~= seq![v]);
                    assert(href_values(s) + seq![v] =~= seq![v]);
                } else {
                    assert(href_values(whole) =~= Seq::<Seq<u8>>::empty());
                    assert(href_values(s) + Seq::<Seq<u8>>::empty() =~= Seq::<
                        Seq<u8>,
                    >::empty());
                }
            },
            AttrV::Bad => {
                assert(href_values(whole) =~= Seq::<Seq<u8>>::empty());
                assert(href_values(s) + Seq::<Seq<u8>>::empty() =~= Seq::<Seq<u8>>::empty());
            },
        }
    } else {
        lemma_href_values_append_one(s.drop_first(), a);
        assert(whole.drop_first() =~= s.drop_first().push(a));
        match s[0] {
            AttrV::Pair(k, v) => {
                if k == href_key() {
                    assert(href_values(whole) == seq![v] + href_values(s.drop_first().push(a)));
                    assert(seq![v] + (href_values(s.drop_first()) + extra_of(a)) =~= (seq![v]
                        + href_values(s.drop_first())) + extra_of(a));
                } else {
                    assert(href_values(whole) == href_values(s.drop_first().push(a)));
                }
            },
            AttrV::Bad => {
                assert(href_values(whole) == href_values(s.drop_first().push(a)));
            },
        }
    }
}

/// A longer scanned slice never loses href values.
proof fn lemma_href_values_len_grows(av: Seq<AttrV>, i: int)
    requires
        0 <= i <= av.len(),
    ensures
        href_values(av).len() >= href_values(av.take(i)).len(),
    decreases av.len() - i,
{
    if i < av.len() {
        lemma_href_values_take_step(av, i);
        lemma_href_values_len_grows(av, i + 1);
    } else {
        assert(av.take(i) =~= av);
    }
}

/// The key `href` as a byte vector.
pub fn href_key_bytes() -> (r: Vec<u8>)
    ensures
        r@ == href_key(),
{
    let mut r: Vec<u8> = Vec::new();
    r.push(104);
    r.push(114);
    r.push(101);
    r.push(102);
    proof {
        assert(r@ =~= href_key());
    }
    r
}

/// Whether the characters of `s` open with the prefix `p`.
pub fn chars_have_prefix(s: &Vec<char>, p: &Vec<char>) -> (r: bool)
    ensures
        r == starts_with(s@, p@),
{
    if p.len() > s.len() {
        return false;
    }
    let mut i: usize = 0;
    while i < p.len()
        invariant
            i <= p.len(),
            p@.len() <= s@.len(),
            forall|j: int| 0 <= j < i ==> s@[j] == p@[j],
        decreases p.len() - i,
    {
        if s[i] != p[i] {
            return false;
        }
        i += 1;
    }
    true
}

/// The characters of `s` from position `k` on.
pub fn chars_from(s: &Vec<char>, k: usize) -> (r: Vec<char>)
    requires
        k <= s@.len(),
    ensures
        r@ == s@.skip(k as int),
{
    let mut r: Vec<char> = Vec::new();
    let mut i: usize = k;
    while i < s.len()
        invariant
            k <= i <= s@.len(),
            r@ == s@.subrange(k as int, i as int),
        decreases s.len() - i,
    {
        r.push(s[i]);
        proof {
            assert(s@.subrange(k as int, i as int).push(s@[i as int]) =~= s@.subrange(
                k as int,
                i + 1,
            ));
        }
        i += 1;
    }
    proof {
        assert(s@.subrange(k as int, s@.len() as int) =~= s@.skip(k as int));
    }
    r
}

/// The scheme `file://` as a character vector.
fn scheme_file_chars() -> (r: Vec<char>)
    ensures
        r@ == scheme_file(),
{
    let mut r: Vec<char> = Vec::new();
    r.push('f');
    r.push('i');
    r.push('l');
    r.push('e');
    r.push(':');
    r.push('/');
    r.push('/');
    proof {
        assert(r@ =~= scheme_file());
    }
    r
}

/// The scheme `trash://` as a character vector.
fn scheme_trash_chars() -> (r: Vec<char>)
    ensures
        r@ == scheme_trash(),
{
    let mut r: Vec<char> = Vec::new();
    r.push('t');
    r.push('r');
    r.push('a');
    r.push('s');
    r.push('h');
    r.push(':');
    r.push('/');
    r.push('/');
    proof {
        assert(r@ =~= scheme_trash());
    }
    r
}

/// The scheme `mtp://` as a character vector.
fn scheme_mtp_chars() -> (r: Vec<char>)
    ensures
        r@ == scheme_mtp(),
{
    let mut r: Vec<char> = Vec::new();
    r.push('m');
    r.push('t');
    r.push('p');
    r.push(':');
    r.push('/');
    r.push('/');
    proof {
        assert(r@ =~= scheme_mtp());
    }
    r
}

/// The scheme `ftp://` as a character vector.
fn scheme_ftp_chars() -> (r: Vec<char>)
    ensures
        r@ == scheme_ftp(),
{
    let mut r: Vec<char> = Vec::new();
    r.push('f');
    r.push('t');
    r.push('p');
    r.push(':');
    r.push('/');
    r.push('/');
    proof {
        assert(r@ =~= scheme_ftp());
    }
    r
}

/// The scheme `sftp://` as a character vector.
fn scheme_sftp_chars() -> (r: Vec<char>)
    ensures
        r@ == scheme_sftp(),
{
    let mut r: Vec<char> = Vec::new();
    r.push('s');
    r.push('f');
    r.push('t');
    r.push('p');
    r.push(':');
    r.push('/');
    r.push('/');
    proof {
        assert(r@ =~= scheme_sftp());
    }
    r
}

/// Classifies a bookmark tag by its attribute list: extracts the single
/// `href`, decodes it, and sorts it by scheme.
pub fn classify(attrs: &Vec<AttrItem>) -> (r: Result<UriClass, FilterError>)
    ensures
        match r {
            Ok(c) => classify_attrs(attrs_view(attrs@)) == Ok::<UriClassV, ErrorV>(c@),
            Err(e) => classify_attrs(attrs_view(attrs@)) == Err::<UriClassV, ErrorV>(e@),
        },
{
    let raw = match href_attribute(attrs) {
        Ok(v) => v,
        Err(e) => {
            return Err(e);
        },
    };
    let d = decode_href(&raw);
    let file = scheme_file_chars();
    if chars_have_prefix(&d, &file) {
        let path = chars_from(&d, file.len());
        return Ok(UriClass::Local(path));
    }
    let trash = scheme_trash_chars();
    let mtp = scheme_mtp_chars();
    let ftp = scheme_ftp_chars();
    let sftp = scheme_sftp_chars();
    if chars_have_prefix(&d, &trash) || chars_have_prefix(&d, &mtp) || chars_have_prefix(&d, &ftp)
        || chars_have_prefix(&d, &sftp) {
        Ok(UriClass::NonLocal)
    } else {
        Err(FilterError::UnrecognizedScheme(d))
    }
}

/// Whether the path opens with one of the caller's prefixes; this is the
/// removal test for a local bookmark.
pub fn path_needs_cleaning(prefixes: &Vec<String>, path: &Vec<char>) -> (r: bool)
    ensures
        r == matches_any_prefix(prefixes_view(prefixes@), path@),
{
    let mut i: usize = 0;
    while i < prefixes.len()
        invariant
            i <= prefixes.len(),
            forall|j: int| 0 <= j < i ==> !starts_with(path@, prefixes_view(prefixes@)[j]),
        decreases prefixes.len() - i,
    {
        let pc = chars_of(prefixes[i].as_str());
        if chars_have_prefix(path, &pc) {
            proof {
                assert(starts_with(path@, prefixes_view(prefixes@)[i as int]));
            }
            return true;
        }
        i += 1;
    }
    false
}

} // verus!
