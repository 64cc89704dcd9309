//! The exclusion marker: finding it in an attribute list, checking its
//! argument, and taking it out.
use vstd::prelude::*;
use crate::error::{outcome_view, ErrorView, RewriteError};
use crate::model::{AttrArgs, Attribute};

verus! {

/// The path of the exclusion marker attribute.
pub const MARKER_NAME: &'static str = "fully_pub";

/// The one argument the marker accepts.
pub const EXCLUDE_KEYWORD: &'static str = "exclude";

/// The identifier that syn reads from the ASCII text `text`, if the whole
/// text is one identifier.
pub uninterp spec fn parsed_ident(text: Seq<char>) -> Option<Seq<char>>;

/// Whether every character of `s` is ASCII.
///
/// Only on such text is the identifier that syn reads a function of the text
/// alone: inside a compiler the identifier is lexed by the compiler, which
/// normalises non-ASCII identifiers, and elsewhere by proc-macro2, which keeps
/// them as written.
pub open spec fn is_ascii_text(s: Seq<char>) -> bool {
    forall|i: int| 0 <= i < s.len() ==> (s[i] as u32) < 128
}

/// The text of an optional string.
pub open spec fn text_of(o: Option<String>) -> Option<Seq<char>> {
    match o {
        Some(s) => Some(s@),
        None => None,
    }
}

/// Whether `a` is an exclusion marker: its path is the marker's name alone.
pub open spec fn is_marker(a: Attribute) -> bool {
    a.path@ == MARKER_NAME@
}

/// The identifier given to a marker, if its argument list is a single identifier.
pub open spec fn marker_ident(a: Attribute) -> Option<Seq<char>> {
    match a.args {
        AttrArgs::List(text) => parsed_ident(text@),
        _ => None,
    }
}

/// Whether the argument of `a` is read the same way in every process: a
/// marker's argument list must be ASCII text.
pub open spec fn marker_readable(a: Attribute) -> bool {
    match a.args {
        AttrArgs::List(text) => is_ascii_text(text@),
        _ => true,
    }
}

/// Whether every marker of `attrs` is readable.
pub open spec fn attrs_readable(attrs: Seq<Attribute>) -> bool {
    forall|i: int| 0 <= i < attrs.len() && is_marker(#[trigger] attrs[i]) ==> marker_readable(attrs[i])
}

/// What a marker at `origin` decides, given the identifier read from its
/// argument and whether a valid marker came before it.
pub open spec fn marker_decision(ident: Option<Seq<char>>, seen: bool, origin: u64) -> Result<bool, ErrorView> {
    match ident {
        None => Err(ErrorView::MalformedMarker { origin }),
        Some(id) => if id != EXCLUDE_KEYWORD@ {
            Err(ErrorView::UnknownMarkerArgument { origin, arg: id })
        } else if seen {
            Err(ErrorView::DuplicateMarker { origin })
        } else {
            Ok(true)
        },
    }
}

/// The scanner's state after one more attribute, `seen` telling whether a valid
/// marker came before it.
pub open spec fn scan_step(seen: bool, a: Attribute) -> Result<bool, ErrorView> {
    if !is_marker(a) {
        Ok(seen)
    } else {
        marker_decision(marker_ident(a), seen, a.origin)
    }
}

/// Scans `attrs` in order: `Ok(true)` when it holds exactly one valid marker,
/// `Ok(false)` when it holds none, otherwise the error at the first offending
/// marker.
pub open spec fn scan(attrs: Seq<Attribute>) -> Result<bool, ErrorView>
    decreases attrs.len(),
{
    if attrs.len() == 0 {
        Ok(false)
    } else {
        match scan(attrs.drop_last()) {
            Err(e) => Err(e),
            Ok(seen) => scan_step(seen, attrs.last()),
        }
    }
}

/// `attrs` with every marker taken out, the others in their order.
pub open spec fn unmarked(attrs: Seq<Attribute>) -> Seq<Attribute> {
    attrs.filter(|a: Attribute| !is_marker(a))
}

/// Whether some attribute of `attrs` is a marker.
pub open spec fn has_marker(attrs: Seq<Attribute>) -> bool {
    exists|i: int| 0 <= i < attrs.len() && is_marker(#[trigger] attrs[i])
}

/// Relies on syn::parse_str::<syn::Ident>: reads the whole text as one
/// identifier, and gives it back as its `Display` text. On ASCII text both of
/// proc-macro2's lexers read the same identifier.
#[verifier::external_body]
fn parse_ident(text: &str) -> (r: Option<String>)
    ensures
        is_ascii_text(text@) ==> text_of(r) == parsed_ident(text@),
{
    match syn::parse_str::<syn::Ident>(text) {
        Ok(id) => Some(id.to_string()),
        Err(_) => None,
    }
}

/// Whether `s` reads exactly `lit`.
pub(crate) fn text_is(s: &String, lit: &str) -> (r: bool)
    ensures
        r == (s@ == lit@),
{
    let owned = lit.to_owned();
    s.eq(&owned)
}

/// Whether `a` is an exclusion marker.
pub fn attr_is_marker(a: &Attribute) -> (r: bool)
    ensures
        r == is_marker(*a),
{
    text_is(&a.path, MARKER_NAME)
}

/// The identifier given to the marker `a`, read by syn; none unless its
/// arguments are a list.
pub fn marker_argument(a: &Attribute) -> (r: Option<String>)
    ensures
        marker_readable(*a) ==> text_of(r) == marker_ident(*a),
        !(a.args is List) ==> r is None,
{
    match &a.args {
        AttrArgs::List(text) => parse_ident(text.as_str()),
        _ => None,
    }
}

pub proof fn lemma_unmarked_push(s: Seq<Attribute>, a: Attribute)
    ensures
        unmarked(s.push(a)) == if is_marker(a) { unmarked(s) } else { unmarked(s).push(a) },
{
    reveal(Seq::filter);
    assert(s.push(a).drop_last() =~= s);
}

pub proof fn lemma_scan_error_persists(s: Seq<Attribute>, k: int)
    requires
        0 <= k <= s.len(),
        scan(s.take(k)) is Err,
    ensures
        scan(s) == scan(s.take(k)),
    decreases s.len() - k,
{
    if k < s.len() {
        assert(s.take(k + 1).drop_last() =~= s.take(k));
        lemma_scan_error_persists(s, k + 1);
    } else {
        assert(s.take(k) =~= s);
    }
}

/// The scanner's result on a prefix one attribute longer.
pub proof fn lemma_scan_take_step(s: Seq<Attribute>, k: int)
    requires
        0 <= k < s.len(),
    ensures
        scan(s.take(k + 1)) == match scan(s.take(k)) {
            Err(e) => Err(e),
            Ok(seen) => scan_step(seen, s[k]),
        },
{
    assert(s.take(k + 1).drop_last() =~= s.take(k));
}

/// A list without markers scans as not excluded and loses nothing.
pub proof fn lemma_scan_without_markers(attrs: Seq<Attribute>)
    requires
        !has_marker(attrs),
    ensures
        scan(attrs) == Ok::<bool, ErrorView>(false),
        unmarked(attrs) == attrs,
    decreases attrs.len(),
{
    if attrs.len() > 0 {
        let init = attrs.drop_last();
        assert(!has_marker(init)) by {
            assert forall|i: int| 0 <= i < init.len() implies !is_marker(#[trigger] init[i]) by {
                assert(init[i] == attrs[i]);
            }
        }
        lemma_scan_without_markers(init);
        assert(!is_marker(attrs[attrs.len() - 1]));
        lemma_unmarked_push(init, attrs.last());
        assert(init.push(attrs.last()) =~= attrs);
    } else {
        reveal(Seq::filter);
        assert(unmarked(attrs) =~= attrs);
    }
}

/// No marker is left after the markers are taken out.
pub proof fn lemma_unmarked_has_no_marker(attrs: Seq<Attribute>)
    ensures
        !has_marker(unmarked(attrs)),
    decreases attrs.len(),
{
    if attrs.len() > 0 {
        let init = attrs.drop_last();
        lemma_unmarked_has_no_marker(init);
        lemma_unmarked_push(init, attrs.last());
        assert(init.push(attrs.last()) =~= attrs);
        let u = unmarked(attrs);
        assert forall|i: int| 0 <= i < u.len() implies !is_marker(#[trigger] u[i]) by {
            if i < unmarked(init).len() {
                assert(u[i] == unmarked(init)[i]);
            }
        }
    } else {
        reveal(Seq::filter);
        assert(unmarked(attrs) =~= attrs);
    }
}

/// Decides on one marker at `origin`, given the identifier read from its
/// argument and whether a valid marker came before it on the same node.
pub fn classify_marker(ident: Option<String>, seen: bool, origin: u64) -> (r: Result<bool, RewriteError>)
    ensures
        outcome_view(r) == marker_decision(text_of(ident), seen, origin),
{
    match ident {
        None => Err(RewriteError::MalformedMarker { origin }),
        Some(id) => {
            if !text_is(&id, EXCLUDE_KEYWORD) {
                Err(RewriteError::UnknownMarkerArgument { origin, arg: id })
            } else if seen {
                Err(RewriteError::DuplicateMarker { origin })
            } else {
                Ok(true)
            }
        },
    }
}

pub proof fn lemma_has_marker_step(s: Seq<Attribute>, j: int)
    requires
        0 <= j < s.len(),
    ensures
        has_marker(s.take(j + 1)) == (has_marker(s.take(j)) || is_marker(s[j])),
{
    let a = s.take(j + 1);
    let b = s.take(j);
    if has_marker(b) {
        let i = choose|i: int| 0 <= i < b.len() && is_marker(#[trigger] b[i]);
        assert(a[i] == b[i]);
    }
    if is_marker(s[j]) {
        assert(a[j] == s[j]);
    }
    if has_marker(a) {
        let i = choose|i: int| 0 <= i < a.len() && is_marker(#[trigger] a[i]);
        if i < j {
            assert(b[i] == a[i]);
        }
    }
}

/// Reports whether `attrs` holds a valid exclusion marker, and takes every
/// marker out of it.
///
/// Fails at the first marker whose argument is not `exclude`, or at a second
/// valid one; what then stays in `attrs` is unspecified. Which error comes is
/// fixed where every marker's argument is ASCII text.
pub fn is_exclude(attrs: &mut Vec<Attribute>) -> (r: Result<bool, RewriteError>)
    ensures
        r is Ok ==> r->Ok_0 == has_marker(old(attrs)@) && final(attrs)@ == unmarked(old(attrs)@),
        attrs_readable(old(attrs)@) ==> outcome_view(r) == scan(old(attrs)@),
{
    let ghost orig = attrs@;
    let mut seen = false;
    let mut i: usize = 0;
    let ghost mut j: int = 0;
    while i < attrs.len()
        invariant
            orig == old(attrs)@,
            0 <= j <= orig.len(),
            attrs@ == unmarked(orig.take(j)) + orig.skip(j),
            i == unmarked(orig.take(j)).len(),
            seen == has_marker(orig.take(j)),
            attrs_readable(orig) ==> scan(orig.take(j)) == Ok::<bool, ErrorView>(seen),
        decreases attrs.len() - i,
    {
        proof {
            assert(orig.take(j + 1).drop_last() =~= orig.take(j));
            assert(orig.take(j + 1) =~= orig.take(j).push(orig[j]));
            lemma_unmarked_push(orig.take(j), orig[j]);
            assert(attrs@[i as int] == orig[j]);
            if attrs_readable(orig) {
                assert(scan(orig.take(j + 1)) == scan_step(seen, orig[j]));
            }
            lemma_has_marker_step(orig, j);
        }
        if attr_is_marker(&attrs[i]) {
            let origin = attrs[i].origin;
            let ident = marker_argument(&attrs[i]);
            match classify_marker(ident, seen, origin) {
                Err(e) => {
                    proof {
                        if attrs_readable(orig) {
                            assert(marker_readable(orig[j]));
                            lemma_scan_error_persists(orig, j + 1);
                        }
                    }
                    return Err(e);
                },
                Ok(_) => {},
            }
            proof {
                if attrs_readable(orig) {
                    assert(marker_readable(orig[j]));
                }
            }
            seen = true;
            attrs.remove(i);
            proof {
                assert(attrs@ =~= unmarked(orig.take(j + 1)) + orig.skip(j + 1));
            }
        } else {
            i = i + 1;
            proof {
                assert(attrs@ =~= unmarked(orig.take(j + 1)) + orig.skip(j + 1));
            }
        }
        proof {
            j = j + 1;
        }
    }
    proof {
        assert(orig.take(j) =~= orig);
        assert(orig.skip(j) =~= Seq::<Attribute>::empty());
        assert(attrs@ =~= unmarked(orig));
    }
    Ok(seen)
}

} // verus!
