//! What holds of every rewrite, stated over the rewrite's own specification.
use vstd::prelude::*;
use crate::error::ErrorView;
use crate::marker::{
    has_marker, is_marker, lemma_has_marker_step, lemma_scan_error_persists, lemma_scan_take_step,
    lemma_scan_without_markers, lemma_unmarked_has_no_marker, marker_ident, scan, EXCLUDE_KEYWORD,
};
use crate::model::{Attribute, Fields, ForeignItem, ImplItem, Item, Member, Visibility};
use crate::rewrite::{
    content_error, content_rewritten, first_error, foreign_item_error_fn, foreign_item_rewritten,
    foreign_items_error, foreign_items_rewritten, impl_item_error_fn, impl_item_rewritten,
    impl_items_error, impl_items_rewritten, item_error, item_rewritten, member_error,
    member_error_fn, member_rewritten, members_error, members_rewritten,
};

verus! {

/// The node that carries an item's own visibility and attributes, for the
/// kinds that have one (a module only with an inline body).
pub open spec fn item_node(item: Item) -> Option<Member> {
    match item {
        Item::Const(m) | Item::Enum(m) | Item::Fn(m) | Item::Static(m) | Item::Trait(m)
        | Item::TraitAlias(m) | Item::Type(m) => Some(m),
        Item::Mod { node, content: Some(_) } => Some(node),
        Item::Struct { node, .. } => Some(node),
        Item::Union { node, .. } => Some(node),
        _ => None,
    }
}

/// Whether `attrs` carries exactly one marker, and that marker reads `exclude`.
pub open spec fn single_exclusion(attrs: Seq<Attribute>) -> bool {
    exists|i: int|
        0 <= i < attrs.len() && is_marker(#[trigger] attrs[i]) && marker_ident(attrs[i])
            == Some(EXCLUDE_KEYWORD@) && forall|j: int|
            0 <= j < attrs.len() && j != i ==> !is_marker(#[trigger] attrs[j])
}

proof fn lemma_single_exclusion_prefix(attrs: Seq<Attribute>, i: int, k: int)
    requires
        0 <= i < attrs.len(),
        0 <= k <= attrs.len(),
        is_marker(attrs[i]),
        marker_ident(attrs[i]) == Some(EXCLUDE_KEYWORD@),
        forall|j: int| 0 <= j < attrs.len() && j != i ==> !is_marker(#[trigger] attrs[j]),
    ensures
        scan(attrs.take(k)) == Ok::<bool, ErrorView>(k > i),
    decreases k,
{
    if k > 0 {
        lemma_single_exclusion_prefix(attrs, i, k - 1);
        lemma_scan_take_step(attrs, k - 1);
    } else {
        assert(attrs.take(0) =~= Seq::<Attribute>::empty());
    }
}

proof fn lemma_single_exclusion_scan(attrs: Seq<Attribute>)
    requires
        single_exclusion(attrs),
    ensures
        scan(attrs) == Ok::<bool, ErrorView>(true),
{
    let i = choose|i: int|
        0 <= i < attrs.len() && is_marker(#[trigger] attrs[i]) && marker_ident(attrs[i])
            == Some(EXCLUDE_KEYWORD@) && forall|j: int|
            0 <= j < attrs.len() && j != i ==> !is_marker(#[trigger] attrs[j]);
    lemma_single_exclusion_prefix(attrs, i, attrs.len() as int);
    assert(attrs.take(attrs.len() as int) =~= attrs);
}

/// The node of a rewritten item is the rewrite of the item's node.
pub proof fn lemma_item_node_rewritten(before: Item, after: Item, recursive: bool)
    requires
        item_rewritten(before, after, recursive),
        item_node(before) is Some,
    ensures
        item_node(after) is Some,
        member_rewritten(item_node(before)->0, item_node(after)->0),
{
}

/// An error in the attributes of an item's own node is the error of the whole rewrite.
pub proof fn lemma_item_node_error(item: Item, recursive: bool)
    requires
        item_node(item) is Some,
        member_error(item_node(item)->0) is Some,
    ensures
        item_error(item, recursive) == member_error(item_node(item)->0),
{
}

/// A node without a marker comes out public, whatever its visibility was, and
/// keeps its attributes.
pub proof fn lemma_unmarked_node_becomes_public(before: Member, after: Member)
    requires
        member_rewritten(before, after),
        !has_marker(before.attrs@),
    ensures
        after.vis == Visibility::Public,
        after.attrs@ == before.attrs@,
{
    lemma_scan_without_markers(before.attrs@);
}

/// A rewrite never turns a public node private, marker or not.
pub proof fn lemma_public_stays_public(before: Member, after: Member)
    requires
        member_rewritten(before, after),
        before.vis == Visibility::Public,
    ensures
        after.vis == Visibility::Public,
{
}

/// A node that carries one valid exclusion marker keeps its visibility exactly,
/// and loses the marker.
pub proof fn lemma_excluded_node_keeps_visibility(before: Member, after: Member)
    requires
        member_rewritten(before, after),
        single_exclusion(before.attrs@),
    ensures
        after.vis == before.vis,
        !has_marker(after.attrs@),
{
    lemma_single_exclusion_scan(before.attrs@);
    lemma_unmarked_has_no_marker(before.attrs@);
}

/// A second valid marker on an item's node, after exactly one valid marker,
/// fails the rewrite with `DuplicateMarker` at the second one.
pub proof fn lemma_second_marker_is_duplicate(item: Item, recursive: bool, j: int)
    requires
        item_node(item) is Some,
        0 <= j < item_node(item)->0.attrs@.len(),
        scan(item_node(item)->0.attrs@.take(j)) == Ok::<bool, ErrorView>(true),
        is_marker(item_node(item)->0.attrs@[j]),
        marker_ident(item_node(item)->0.attrs@[j]) == Some(EXCLUDE_KEYWORD@),
    ensures
        item_error(item, recursive) == Some(
            ErrorView::DuplicateMarker { origin: item_node(item)->0.attrs@[j].origin },
        ),
{
    let attrs = item_node(item)->0.attrs@;
    lemma_scan_take_step(attrs, j);
    lemma_scan_error_persists(attrs, j + 1);
}

/// A marker whose argument is an identifier other than `exclude`, with no
/// error among the attributes before it, fails the rewrite with
/// `UnknownMarkerArgument`.
pub proof fn lemma_unknown_marker_argument(item: Item, recursive: bool, j: int)
    requires
        item_node(item) is Some,
        0 <= j < item_node(item)->0.attrs@.len(),
        scan(item_node(item)->0.attrs@.take(j)) is Ok,
        is_marker(item_node(item)->0.attrs@[j]),
        marker_ident(item_node(item)->0.attrs@[j]) is Some,
        marker_ident(item_node(item)->0.attrs@[j])->0 != EXCLUDE_KEYWORD@,
    ensures
        item_error(item, recursive) == Some(
            ErrorView::UnknownMarkerArgument {
                origin: item_node(item)->0.attrs@[j].origin,
                arg: marker_ident(item_node(item)->0.attrs@[j])->0,
            },
        ),
{
    let attrs = item_node(item)->0.attrs@;
    lemma_scan_take_step(attrs, j);
    lemma_scan_error_persists(attrs, j + 1);
}

/// In shallow mode a module without a marker becomes public and its body is
/// left exactly as it was.
pub proof fn lemma_shallow_module(before: Item, after: Item)
    requires
        before is Mod,
        before->Mod_content is Some,
        !has_marker(before->Mod_node.attrs@),
        item_rewritten(before, after, false),
    ensures
        item_error(before, false) is None,
        after is Mod,
        after->Mod_node.vis == Visibility::Public,
        after->Mod_content == before->Mod_content,
{
    lemma_scan_without_markers(before->Mod_node.attrs@);
}

/// A trait implementation comes out exactly as it went in, markers included,
/// and never fails.
pub proof fn lemma_trait_impl_untouched(before: Item, after: Item, recursive: bool)
    requires
        before is Impl,
        before->Impl_of_trait,
        item_rewritten(before, after, recursive),
    ensures
        item_error(before, recursive) is None,
        after == before,
{
}

proof fn lemma_content_pointwise(s: Seq<Item>, t: Seq<Item>, recursive: bool)
    requires
        content_rewritten(s, t, recursive),
    ensures
        s.len() == t.len(),
        forall|i: int| 0 <= i < s.len() ==> item_rewritten(#[trigger] s[i], t[i], recursive),
    decreases s.len(),
{
    if s.len() > 0 {
        let n = s.len() - 1;
        lemma_content_pointwise(s.subrange(0, n), t.subrange(0, n), recursive);
        assert forall|i: int| 0 <= i < s.len() implies item_rewritten(
            #[trigger] s[i],
            t[i],
            recursive,
        ) by {
            if i < n {
                assert(s.subrange(0, n)[i] == s[i]);
                assert(t.subrange(0, n)[i] == t[i]);
            }
        }
    }
}

/// In recursive mode a module without a marker becomes public, and each item
/// of its body is rewritten by the same rules, again in recursive mode: so at
/// every depth a declaration without a marker becomes public, and no rewritten
/// declaration keeps a marker.
pub proof fn lemma_recursive_module(before: Item, after: Item)
    requires
        before is Mod,
        before->Mod_content is Some,
        !has_marker(before->Mod_node.attrs@),
        item_rewritten(before, after, true),
    ensures
        after is Mod,
        after->Mod_node.vis == Visibility::Public,
        after->Mod_content is Some,
        ({
            let v = before->Mod_content->0@;
            let w = after->Mod_content->0@;
            &&& v.len() == w.len()
            &&& forall|i: int| 0 <= i < v.len() ==> item_rewritten(#[trigger] v[i], w[i], true)
            &&& forall|i: int|
                0 <= i < v.len() && (#[trigger] item_node(v[i])) is Some ==> {
                    &&& item_node(w[i]) is Some
                    &&& !has_marker(item_node(w[i])->0.attrs@)
                    &&& !has_marker(item_node(v[i])->0.attrs@) ==> item_node(w[i])->0.vis
                        == Visibility::Public
                }
        }),
{
    lemma_scan_without_markers(before->Mod_node.attrs@);
    let v = before->Mod_content->0@;
    let w = after->Mod_content->0@;
    lemma_content_pointwise(v, w, true);
    assert forall|i: int| 0 <= i < v.len() && (#[trigger] item_node(v[i])) is Some implies {
        &&& item_node(w[i]) is Some
        &&& !has_marker(item_node(w[i])->0.attrs@)
        &&& !has_marker(item_node(v[i])->0.attrs@) ==> item_node(w[i])->0.vis
            == Visibility::Public
    } by {
        lemma_item_node_rewritten(v[i], w[i], true);
        let m = item_node(v[i])->0;
        lemma_unmarked_has_no_marker(m.attrs@);
        if !has_marker(m.attrs@) {
            lemma_unmarked_node_becomes_public(m, item_node(w[i])->0);
        }
    }
}

/// Whether no member of `s` carries a marker.
pub open spec fn members_marker_free(s: Seq<Member>) -> bool {
    forall|i: int| 0 <= i < s.len() ==> !has_marker((#[trigger] s[i]).attrs@)
}

pub open spec fn foreign_item_marker_free(f: ForeignItem) -> bool {
    match f {
        ForeignItem::Fn(m) | ForeignItem::Static(m) | ForeignItem::Type(m) => !has_marker(m.attrs@),
        _ => true,
    }
}

pub open spec fn impl_item_marker_free(f: ImplItem) -> bool {
    match f {
        ImplItem::Const(m) | ImplItem::Fn(m) | ImplItem::Type(m) => !has_marker(m.attrs@),
        _ => true,
    }
}

/// Whether no attribute list anywhere in `item` carries a marker.
pub open spec fn marker_free(item: Item) -> bool
    decreases item,
{
    match item {
        Item::Const(m) | Item::Enum(m) | Item::Fn(m) | Item::Static(m) | Item::Trait(m)
        | Item::TraitAlias(m) | Item::Type(m) => !has_marker(m.attrs@),
        Item::ForeignMod { attrs, items } => {
            &&& !has_marker(attrs@)
            &&& forall|i: int|
                0 <= i < items@.len() ==> foreign_item_marker_free(#[trigger] items@[i])
        },
        Item::Impl { attrs, items, .. } => {
            &&& !has_marker(attrs@)
            &&& forall|i: int| 0 <= i < items@.len() ==> impl_item_marker_free(#[trigger] items@[i])
        },
        Item::Mod { node, content } => {
            &&& !has_marker(node.attrs@)
            &&& match content {
                Some(v) => content_marker_free(v@),
                None => true,
            }
        },
        Item::Struct { node, fields } => {
            &&& !has_marker(node.attrs@)
            &&& match fields {
                Fields::Named(v) | Fields::Unnamed(v) => members_marker_free(v@),
                Fields::Unit => true,
            }
        },
        Item::Union { node, fields } => !has_marker(node.attrs@) && members_marker_free(fields@),
        _ => true,
    }
}

/// Whether no item of `s` carries a marker anywhere.
pub open spec fn content_marker_free(s: Seq<Item>) -> bool
    decreases s,
{
    s.len() > 0 ==> {
        &&& content_marker_free(s.subrange(0, s.len() - 1))
        &&& marker_free(s[s.len() - 1])
    }
}

proof fn lemma_first_error_none<T>(s: Seq<T>, err: spec_fn(T) -> Option<ErrorView>)
    requires
        forall|i: int| 0 <= i < s.len() ==> (#[trigger] err(s[i])) is None,
    ensures
        first_error(s, err) is None,
    decreases s.len(),
{
    if s.len() > 0 {
        let init = s.drop_last();
        assert forall|i: int| 0 <= i < init.len() implies (#[trigger] err(init[i])) is None by {
            assert(init[i] == s[i]);
        }
        lemma_first_error_none(init, err);
    }
}

proof fn lemma_member_again(a: Member, b: Member)
    requires
        !has_marker(a.attrs@),
        member_rewritten(a, b),
    ensures
        member_error(b) is None,
        member_rewritten(b, b),
        !has_marker(b.attrs@),
{
    lemma_scan_without_markers(a.attrs@);
    lemma_scan_without_markers(b.attrs@);
}

proof fn lemma_members_again(a: Seq<Member>, b: Seq<Member>)
    requires
        members_marker_free(a),
        members_rewritten(a, b),
    ensures
        members_error(b) is None,
        members_rewritten(b, b),
{
    assert forall|i: int| 0 <= i < b.len() implies member_rewritten(#[trigger] b[i], b[i])
        && member_error_fn()(b[i]) is None by {
        lemma_member_again(a[i], b[i]);
    }
    lemma_first_error_none(b, member_error_fn());
}

proof fn lemma_foreign_items_again(a: Seq<ForeignItem>, b: Seq<ForeignItem>)
    requires
        forall|i: int| 0 <= i < a.len() ==> foreign_item_marker_free(#[trigger] a[i]),
        foreign_items_rewritten(a, b),
    ensures
        foreign_items_error(b) is None,
        foreign_items_rewritten(b, b),
{
    assert forall|i: int| 0 <= i < b.len() implies foreign_item_rewritten(#[trigger] b[i], b[i])
        && foreign_item_error_fn()(b[i]) is None by {
        assert(foreign_item_marker_free(a[i]));
        match a[i] {
            ForeignItem::Fn(m) => lemma_member_again(m, b[i]->Fn_0),
            ForeignItem::Static(m) => lemma_member_again(m, b[i]->Static_0),
            ForeignItem::Type(m) => lemma_member_again(m, b[i]->Type_0),
            _ => {},
        }
    }
    lemma_first_error_none(b, foreign_item_error_fn());
}

proof fn lemma_impl_items_again(a: Seq<ImplItem>, b: Seq<ImplItem>)
    requires
        forall|i: int| 0 <= i < a.len() ==> impl_item_marker_free(#[trigger] a[i]),
        impl_items_rewritten(a, b),
    ensures
        impl_items_error(b) is None,
        impl_items_rewritten(b, b),
{
    assert forall|i: int| 0 <= i < b.len() implies impl_item_rewritten(#[trigger] b[i], b[i])
        && impl_item_error_fn()(b[i]) is None by {
        assert(impl_item_marker_free(a[i]));
        match a[i] {
            ImplItem::Const(m) => lemma_member_again(m, b[i]->Const_0),
            ImplItem::Fn(m) => lemma_member_again(m, b[i]->Fn_0),
            ImplItem::Type(m) => lemma_member_again(m, b[i]->Type_0),
            _ => {},
        }
    }
    lemma_first_error_none(b, impl_item_error_fn());
}

/// Rewriting a second time, on an input without markers, meets no error and
/// gives back the first result unchanged: a public declaration never turns
/// private again.
pub proof fn lemma_rewrite_twice(a: Item, b: Item, recursive: bool)
    requires
        marker_free(a),
        item_rewritten(a, b, recursive),
    ensures
        item_error(b, recursive) is None,
        item_rewritten(b, b, recursive),
    decreases a,
{
    match a {
        Item::Const(m) => lemma_member_again(m, b->Const_0),
        Item::Enum(m) => lemma_member_again(m, b->Enum_0),
        Item::Fn(m) => lemma_member_again(m, b->Fn_0),
        Item::Static(m) => lemma_member_again(m, b->Static_0),
        Item::Trait(m) => lemma_member_again(m, b->Trait_0),
        Item::TraitAlias(m) => lemma_member_again(m, b->TraitAlias_0),
        Item::Type(m) => lemma_member_again(m, b->Type_0),
        Item::ForeignMod { attrs, items } => {
            lemma_scan_without_markers(attrs@);
            lemma_scan_without_markers(b->ForeignMod_attrs@);
            lemma_foreign_items_again(items@, b->ForeignMod_items@);
        },
        Item::Impl { attrs, of_trait, items } => {
            if !of_trait {
                lemma_scan_without_markers(attrs@);
                lemma_scan_without_markers(b->Impl_attrs@);
                lemma_impl_items_again(items@, b->Impl_items@);
            }
        },
        Item::Mod { node, content } => {
            if let Some(v) = content {
                lemma_member_again(node, b->Mod_node);
                lemma_scan_without_markers(node.attrs@);
                if recursive {
                    lemma_content_again(v@, b->Mod_content->0@, recursive);
                }
            }
        },
        Item::Struct { node, fields } => {
            lemma_member_again(node, b->Struct_node);
            lemma_scan_without_markers(node.attrs@);
            match fields {
                Fields::Named(v) => lemma_members_again(v@, b->Struct_fields->Named_0@),
                Fields::Unnamed(v) => lemma_members_again(v@, b->Struct_fields->Unnamed_0@),
                Fields::Unit => {},
            }
        },
        Item::Union { node, fields } => {
            lemma_member_again(node, b->Union_node);
            lemma_scan_without_markers(node.attrs@);
            lemma_members_again(fields@, b->Union_fields@);
        },
        _ => {},
    }
}

proof fn lemma_content_again(a: Seq<Item>, b: Seq<Item>, recursive: bool)
    requires
        content_marker_free(a),
        content_rewritten(a, b, recursive),
    ensures
        content_error(b, recursive) is None,
        content_rewritten(b, b, recursive),
    decreases a,
{
    if a.len() > 0 {
        let n = a.len() - 1;
        lemma_content_again(a.subrange(0, n), b.subrange(0, n), recursive);
        lemma_rewrite_twice(a[n], b[n], recursive);
    }
}

/// What a successful scan says of the attributes: at most one marker, and
/// every marker reads `exclude`.
proof fn lemma_scan_ok(s: Seq<Attribute>)
    requires
        scan(s) is Ok,
    ensures
        scan(s) == Ok::<bool, ErrorView>(has_marker(s)),
        forall|i: int| 0 <= i < s.len() && is_marker(#[trigger] s[i]) ==> marker_ident(s[i]) == Some(EXCLUDE_KEYWORD@),
        forall|i: int, j: int| 0 <= i < j < s.len() && is_marker(#[trigger] s[i]) ==> !is_marker(#[trigger] s[j]),
    decreases s.len(),
{
    if s.len() > 0 {
        let n = s.len() - 1;
        let init = s.take(n);
        assert(s.drop_last() =~= init);
        lemma_scan_ok(init);
        lemma_has_marker_step(s, n);
        assert(s.take(n + 1) =~= s);
        assert forall|i: int| 0 <= i < n && is_marker(#[trigger] s[i]) implies has_marker(init) by {
            assert(init[i] == s[i]);
        }
        assert forall|i: int| 0 <= i < s.len() && is_marker(#[trigger] s[i]) implies marker_ident(s[i])
            == Some(EXCLUDE_KEYWORD@) by {
            if i < n {
                assert(init[i] == s[i]);
            }
        }
        assert forall|i: int, j: int| 0 <= i < j < s.len() && is_marker(#[trigger] s[i]) implies !is_marker(
            #[trigger] s[j],
        ) by {
            if j < n {
                assert(init[i] == s[i] && init[j] == s[j]);
            }
        }
    }
}

/// Whether `attrs` carries two markers or more.
pub open spec fn several_markers(attrs: Seq<Attribute>) -> bool {
    exists|i: int, j: int| 0 <= i < j < attrs.len() && is_marker(#[trigger] attrs[i]) && is_marker(#[trigger] attrs[j])
}

/// Whether `attrs` carries a marker whose argument is an identifier other than `exclude`.
pub open spec fn unknown_marker(attrs: Seq<Attribute>) -> bool {
    exists|i: int|
        0 <= i < attrs.len() && is_marker(#[trigger] attrs[i]) && marker_ident(attrs[i]) is Some
            && marker_ident(attrs[i])->0 != EXCLUDE_KEYWORD@
}

pub open spec fn several_markers_fn() -> spec_fn(Seq<Attribute>) -> bool {
    |s: Seq<Attribute>| several_markers(s)
}

pub open spec fn unknown_marker_fn() -> spec_fn(Seq<Attribute>) -> bool {
    |s: Seq<Attribute>| unknown_marker(s)
}

pub open spec fn members_scanned(s: Seq<Member>, bad: spec_fn(Seq<Attribute>) -> bool) -> bool {
    exists|i: int| 0 <= i < s.len() && bad((#[trigger] s[i]).attrs@)
}

pub open spec fn foreign_scanned(s: Seq<ForeignItem>, bad: spec_fn(Seq<Attribute>) -> bool) -> bool {
    exists|i: int|
        0 <= i < s.len() && match #[trigger] s[i] {
            ForeignItem::Fn(m) | ForeignItem::Static(m) | ForeignItem::Type(m) => bad(m.attrs@),
            _ => false,
        }
}

pub open spec fn impl_scanned(s: Seq<ImplItem>, bad: spec_fn(Seq<Attribute>) -> bool) -> bool {
    exists|i: int|
        0 <= i < s.len() && match #[trigger] s[i] {
            ImplItem::Const(m) | ImplItem::Fn(m) | ImplItem::Type(m) => bad(m.attrs@),
            _ => false,
        }
}

/// Whether some node whose attributes a rewrite of `item` scans has attributes
/// of which `bad` holds. A rewrite scans an item's own node (not a trait
/// implementation's, nor one of a kind it leaves alone), the members of a
/// container that carries no marker, and, in recursive mode, what it scans
/// of each item in the body of a module that carries no marker.
pub open spec fn some_scanned(item: Item, recursive: bool, bad: spec_fn(Seq<Attribute>) -> bool) -> bool
    decreases item,
{
    match item {
        Item::Const(m) | Item::Enum(m) | Item::Fn(m) | Item::Static(m) | Item::Trait(m)
        | Item::TraitAlias(m) | Item::Type(m) => bad(m.attrs@),
        Item::ForeignMod { attrs, items } => bad(attrs@) || (!has_marker(attrs@) && foreign_scanned(items@, bad)),
        Item::Impl { attrs, of_trait, items } => !of_trait && (bad(attrs@) || (!has_marker(attrs@)
            && impl_scanned(items@, bad))),
        Item::Mod { node, content: Some(v) } => bad(node.attrs@) || (!has_marker(node.attrs@) && recursive
            && content_scanned(v@, recursive, bad)),
        Item::Struct { node, fields } => bad(node.attrs@) || (!has_marker(node.attrs@) && match fields {
            Fields::Named(v) | Fields::Unnamed(v) => members_scanned(v@, bad),
            Fields::Unit => false,
        }),
        Item::Union { node, fields } => bad(node.attrs@) || (!has_marker(node.attrs@) && members_scanned(fields@, bad)),
        _ => false,
    }
}

pub open spec fn content_scanned(s: Seq<Item>, recursive: bool, bad: spec_fn(Seq<Attribute>) -> bool) -> bool
    decreases s,
{
    s.len() > 0 && (content_scanned(s.subrange(0, s.len() - 1), recursive, bad) || some_scanned(
        s[s.len() - 1],
        recursive,
        bad,
    ))
}

proof fn lemma_first_error_some<T>(s: Seq<T>, err: spec_fn(T) -> Option<ErrorView>, k: int)
    requires
        0 <= k < s.len(),
        err(s[k]) is Some,
    ensures
        first_error(s, err) is Some,
    decreases s.len(),
{
    let init = s.drop_last();
    if k < s.len() - 1 {
        assert(init[k] == s[k]);
        lemma_first_error_some(init, err, k);
    }
}

proof fn lemma_scanned_fails(item: Item, recursive: bool, bad: spec_fn(Seq<Attribute>) -> bool)
    requires
        forall|s: Seq<Attribute>| #[trigger] bad(s) ==> scan(s) is Err,
        some_scanned(item, recursive, bad),
    ensures
        item_error(item, recursive) is Some,
    decreases item,
{
    match item {
        Item::ForeignMod { attrs, items } => {
            if !bad(attrs@) {
                lemma_scan_without_markers(attrs@);
                let i = choose|i: int| 0 <= i < items@.len() && match #[trigger] items@[i] {
                    ForeignItem::Fn(m) | ForeignItem::Static(m) | ForeignItem::Type(m) => bad(m.attrs@),
                    _ => false,
                };
                lemma_first_error_some(items@, foreign_item_error_fn(), i);
            }
        },
        Item::Impl { attrs, items, .. } => {
            if !bad(attrs@) {
                lemma_scan_without_markers(attrs@);
                let i = choose|i: int| 0 <= i < items@.len() && match #[trigger] items@[i] {
                    ImplItem::Const(m) | ImplItem::Fn(m) | ImplItem::Type(m) => bad(m.attrs@),
                    _ => false,
                };
                lemma_first_error_some(items@, impl_item_error_fn(), i);
            }
        },
        Item::Mod { node, content: Some(v) } => {
            if !bad(node.attrs@) {
                lemma_scan_without_markers(node.attrs@);
                lemma_content_scanned_fails(v@, recursive, bad);
            }
        },
        Item::Struct { node, fields } => {
            if !bad(node.attrs@) {
                lemma_scan_without_markers(node.attrs@);
                match fields {
                    Fields::Named(v) | Fields::Unnamed(v) => {
                        let i = choose|i: int| 0 <= i < v@.len() && bad((#[trigger] v@[i]).attrs@);
                        lemma_first_error_some(v@, member_error_fn(), i);
                    },
                    Fields::Unit => {},
                }
            }
        },
        Item::Union { node, fields } => {
            if !bad(node.attrs@) {
                lemma_scan_without_markers(node.attrs@);
                let i = choose|i: int| 0 <= i < fields@.len() && bad((#[trigger] fields@[i]).attrs@);
                lemma_first_error_some(fields@, member_error_fn(), i);
            }
        },
        _ => {},
    }
}

proof fn lemma_content_scanned_fails(s: Seq<Item>, recursive: bool, bad: spec_fn(Seq<Attribute>) -> bool)
    requires
        forall|a: Seq<Attribute>| #[trigger] bad(a) ==> scan(a) is Err,
        content_scanned(s, recursive, bad),
    ensures
        content_error(s, recursive) is Some,
    decreases s,
{
    let n = s.len() - 1;
    if content_scanned(s.subrange(0, n), recursive, bad) {
        lemma_content_scanned_fails(s.subrange(0, n), recursive, bad);
    } else {
        lemma_scanned_fails(s[n], recursive, bad);
    }
}

/// A rewrite fails wherever in the tree a node that it scans carries two
/// markers or more: it never succeeds on such a tree.
pub proof fn lemma_several_markers_anywhere_fail(item: Item, recursive: bool)
    requires
        some_scanned(item, recursive, several_markers_fn()),
    ensures
        item_error(item, recursive) is Some,
{
    let bad = several_markers_fn();
    assert forall|s: Seq<Attribute>| #[trigger] bad(s) implies scan(s) is Err by {
        if scan(s) is Ok {
            lemma_scan_ok(s);
        }
    }
    lemma_scanned_fails(item, recursive, bad);
}

/// A rewrite fails wherever in the tree a node that it scans carries a marker
/// whose argument is an identifier other than `exclude`.
pub proof fn lemma_unknown_marker_anywhere_fails(item: Item, recursive: bool)
    requires
        some_scanned(item, recursive, unknown_marker_fn()),
    ensures
        item_error(item, recursive) is Some,
{
    let bad = unknown_marker_fn();
    assert forall|s: Seq<Attribute>| #[trigger] bad(s) implies scan(s) is Err by {
        if scan(s) is Ok {
            lemma_scan_ok(s);
        }
    }
    lemma_scanned_fails(item, recursive, bad);
}

/// Whether scanning `attrs` fails.
pub open spec fn scan_fails(attrs: Seq<Attribute>) -> bool {
    scan(attrs) is Err
}

pub open spec fn scan_fails_fn() -> spec_fn(Seq<Attribute>) -> bool {
    |s: Seq<Attribute>| scan_fails(s)
}

proof fn lemma_unscanned_succeeds(item: Item, recursive: bool)
    requires
        !some_scanned(item, recursive, scan_fails_fn()),
    ensures
        item_error(item, recursive) is None,
    decreases item,
{
    let bad = scan_fails_fn();
    match item {
        Item::ForeignMod { attrs, items } => {
            lemma_scan_ok(attrs@);
            if !has_marker(attrs@) {
                assert forall|i: int| 0 <= i < items@.len() implies (#[trigger] foreign_item_error_fn()(
                    items@[i],
                )) is None by {
                    match items@[i] {
                        ForeignItem::Fn(m) | ForeignItem::Static(m) | ForeignItem::Type(m) => {
                            if scan(m.attrs@) is Err {
                                assert(foreign_scanned(items@, bad));
                            }
                        },
                        _ => {},
                    }
                }
                lemma_first_error_none(items@, foreign_item_error_fn());
            }
        },
        Item::Impl { attrs, of_trait, items } => {
            if !of_trait {
                lemma_scan_ok(attrs@);
                if !has_marker(attrs@) {
                    assert forall|i: int| 0 <= i < items@.len() implies (#[trigger] impl_item_error_fn()(
                        items@[i],
                    )) is None by {
                        match items@[i] {
                            ImplItem::Const(m) | ImplItem::Fn(m) | ImplItem::Type(m) => {
                                if scan(m.attrs@) is Err {
                                    assert(impl_scanned(items@, bad));
                                }
                            },
                            _ => {},
                        }
                    }
                    lemma_first_error_none(items@, impl_item_error_fn());
                }
            }
        },
        Item::Mod { node, content: Some(v) } => {
            lemma_scan_ok(node.attrs@);
            if !has_marker(node.attrs@) && recursive {
                lemma_content_unscanned_succeeds(v@, recursive);
            }
        },
        Item::Struct { node, fields } => {
            lemma_scan_ok(node.attrs@);
            if !has_marker(node.attrs@) {
                match fields {
                    Fields::Named(v) | Fields::Unnamed(v) => {
                        assert forall|i: int| 0 <= i < v@.len() implies (#[trigger] member_error_fn()(
                            v@[i],
                        )) is None by {
                            if scan(v@[i].attrs@) is Err {
                                assert(members_scanned(v@, bad));
                            }
                        }
                        lemma_first_error_none(v@, member_error_fn());
                    },
                    Fields::Unit => {},
                }
            }
        },
        Item::Union { node, fields } => {
            lemma_scan_ok(node.attrs@);
            if !has_marker(node.attrs@) {
                assert forall|i: int| 0 <= i < fields@.len() implies (#[trigger] member_error_fn()(
                    fields@[i],
                )) is None by {
                    if scan(fields@[i].attrs@) is Err {
                        assert(members_scanned(fields@, bad));
                    }
                }
                lemma_first_error_none(fields@, member_error_fn());
            }
        },
        _ => {},
    }
}

proof fn lemma_content_unscanned_succeeds(s: Seq<Item>, recursive: bool)
    requires
        !content_scanned(s, recursive, scan_fails_fn()),
    ensures
        content_error(s, recursive) is None,
    decreases s,
{
    if s.len() > 0 {
        let n = s.len() - 1;
        lemma_content_unscanned_succeeds(s.subrange(0, n), recursive);
        lemma_unscanned_succeeds(s[n], recursive);
    }
}

/// A rewrite meets an error exactly when some node that it scans, at any
/// depth it reaches, has markers that fail to scan; so a tree whose scanned
/// nodes each carry at most one marker reading `exclude` is rewritten
/// without error at every depth.
pub proof fn lemma_fails_exactly_on_bad_markers(item: Item, recursive: bool)
    ensures
        item_error(item, recursive) is Some <==> some_scanned(item, recursive, scan_fails_fn()),
{
    if some_scanned(item, recursive, scan_fails_fn()) {
        let bad = scan_fails_fn();
        assert forall|s: Seq<Attribute>| #[trigger] bad(s) implies scan(s) is Err by {}
        lemma_scanned_fails(item, recursive, bad);
    } else {
        lemma_unscanned_succeeds(item, recursive);
    }
}

} // verus!
