//! The rewrite itself: per kind of declaration, whether to set it public,
//! which members to visit, and whether to descend into a module's body.
use vstd::prelude::*;
use crate::error::{error_of, ErrorView, RewriteError};
use crate::marker::{attrs_readable, has_marker, is_exclude, scan, text_is, unmarked};
use crate::model::{Fields, ForeignItem, ImplItem, Item, Member, Visibility};

verus! {

/// The error of the first element of `s`, in order, for which `err` gives one.
pub open spec fn first_error<T>(s: Seq<T>, err: spec_fn(T) -> Option<ErrorView>) -> Option<ErrorView>
    decreases s.len(),
{
    if s.len() == 0 {
        None
    } else {
        match first_error(s.drop_last(), err) {
            Some(e) => Some(e),
            None => err(s.last()),
        }
    }
}

/// The error that scanning the attributes of `m` gives, if any.
pub open spec fn member_error(m: Member) -> Option<ErrorView> {
    match scan(m.attrs@) {
        Err(e) => Some(e),
        Ok(_) => None,
    }
}

/// The error of the first member of `s` whose attributes fail to scan.
pub open spec fn members_error(s: Seq<Member>) -> Option<ErrorView> {
    first_error(s, member_error_fn())
}

pub open spec fn member_error_fn() -> spec_fn(Member) -> Option<ErrorView> {
    |m: Member| member_error(m)
}

/// `after` is `before` with its markers taken out, and public unless it was
/// excluded, in which case its visibility is kept.
///
/// A node whose rewrite succeeds is excluded exactly when it carries a marker.
pub open spec fn member_rewritten(before: Member, after: Member) -> bool {
    &&& after.attrs@ == unmarked(before.attrs@)
    &&& after.vis == if has_marker(before.attrs@) { before.vis } else { Visibility::Public }
}

/// Each member of `after` is the rewrite of the member of `before` at its place.
pub open spec fn members_rewritten(before: Seq<Member>, after: Seq<Member>) -> bool {
    &&& before.len() == after.len()
    &&& forall|i: int| 0 <= i < before.len() ==> member_rewritten(#[trigger] before[i], after[i])
}

pub open spec fn foreign_item_error(f: ForeignItem) -> Option<ErrorView> {
    match f {
        ForeignItem::Fn(m) | ForeignItem::Static(m) | ForeignItem::Type(m) => member_error(m),
        _ => None,
    }
}

/// Functions, statics and types of a foreign block are rewritten as members;
/// the other kinds stay as they are.
pub open spec fn foreign_item_rewritten(before: ForeignItem, after: ForeignItem) -> bool {
    match before {
        ForeignItem::Fn(m) => after is Fn && member_rewritten(m, after->Fn_0),
        ForeignItem::Static(m) => after is Static && member_rewritten(m, after->Static_0),
        ForeignItem::Type(m) => after is Type && member_rewritten(m, after->Type_0),
        _ => after == before,
    }
}

pub open spec fn foreign_items_error(s: Seq<ForeignItem>) -> Option<ErrorView> {
    first_error(s, foreign_item_error_fn())
}

pub open spec fn foreign_item_error_fn() -> spec_fn(ForeignItem) -> Option<ErrorView> {
    |f: ForeignItem| foreign_item_error(f)
}

pub open spec fn foreign_items_rewritten(before: Seq<ForeignItem>, after: Seq<ForeignItem>) -> bool {
    &&& before.len() == after.len()
    &&& forall|i: int| 0 <= i < before.len() ==> foreign_item_rewritten(#[trigger] before[i], after[i])
}

pub open spec fn impl_item_error(f: ImplItem) -> Option<ErrorView> {
    match f {
        ImplItem::Const(m) | ImplItem::Fn(m) | ImplItem::Type(m) => member_error(m),
        _ => None,
    }
}

/// Constants, functions and types of an `impl` block are rewritten as members;
/// the other kinds stay as they are.
pub open spec fn impl_item_rewritten(before: ImplItem, after: ImplItem) -> bool {
    match before {
        ImplItem::Const(m) => after is Const && member_rewritten(m, after->Const_0),
        ImplItem::Fn(m) => after is Fn && member_rewritten(m, after->Fn_0),
        ImplItem::Type(m) => after is Type && member_rewritten(m, after->Type_0),
        _ => after == before,
    }
}

pub open spec fn impl_items_error(s: Seq<ImplItem>) -> Option<ErrorView> {
    first_error(s, impl_item_error_fn())
}

pub open spec fn impl_item_error_fn() -> spec_fn(ImplItem) -> Option<ErrorView> {
    |f: ImplItem| impl_item_error(f)
}

pub open spec fn impl_items_rewritten(before: Seq<ImplItem>, after: Seq<ImplItem>) -> bool {
    &&& before.len() == after.len()
    &&& forall|i: int| 0 <= i < before.len() ==> impl_item_rewritten(#[trigger] before[i], after[i])
}

pub open spec fn fields_error(f: Fields) -> Option<ErrorView> {
    match f {
        Fields::Named(v) | Fields::Unnamed(v) => members_error(v@),
        Fields::Unit => None,
    }
}

pub open spec fn fields_rewritten(before: Fields, after: Fields) -> bool {
    match before {
        Fields::Named(v) => after is Named && members_rewritten(v@, after->Named_0@),
        Fields::Unnamed(v) => after is Unnamed && members_rewritten(v@, after->Unnamed_0@),
        Fields::Unit => after is Unit,
    }
}

pub open spec fn members_readable(s: Seq<Member>) -> bool {
    forall|i: int| 0 <= i < s.len() ==> attrs_readable((#[trigger] s[i]).attrs@)
}

pub open spec fn foreign_item_readable(f: ForeignItem) -> bool {
    match f {
        ForeignItem::Fn(m) | ForeignItem::Static(m) | ForeignItem::Type(m) => attrs_readable(m.attrs@),
        _ => true,
    }
}

pub open spec fn impl_item_readable(f: ImplItem) -> bool {
    match f {
        ImplItem::Const(m) | ImplItem::Fn(m) | ImplItem::Type(m) => attrs_readable(m.attrs@),
        _ => true,
    }
}

pub open spec fn foreign_items_readable(s: Seq<ForeignItem>) -> bool {
    forall|i: int| 0 <= i < s.len() ==> foreign_item_readable(#[trigger] s[i])
}

pub open spec fn impl_items_readable(s: Seq<ImplItem>) -> bool {
    forall|i: int| 0 <= i < s.len() ==> impl_item_readable(#[trigger] s[i])
}

/// Whether every marker anywhere in `item` has ASCII arguments, so that
/// which error a rewrite meets is fixed by the tree alone.
pub open spec fn readable(item: Item) -> bool
    decreases item,
{
    match item {
        Item::Const(m) | Item::Enum(m) | Item::Fn(m) | Item::Static(m) | Item::Trait(m)
        | Item::TraitAlias(m) | Item::Type(m) => attrs_readable(m.attrs@),
        Item::ForeignMod { attrs, items } => {
            &&& attrs_readable(attrs@)
            &&& foreign_items_readable(items@)
        },
        Item::Impl { attrs, items, .. } => {
            &&& attrs_readable(attrs@)
            &&& impl_items_readable(items@)
        },
        Item::Mod { node, content } => {
            &&& attrs_readable(node.attrs@)
            &&& match content {
                Some(v) => content_readable(v@),
                None => true,
            }
        },
        Item::Struct { node, fields } => {
            &&& attrs_readable(node.attrs@)
            &&& match fields {
                Fields::Named(v) | Fields::Unnamed(v) => members_readable(v@),
                Fields::Unit => true,
            }
        },
        Item::Union { node, fields } => attrs_readable(node.attrs@) && members_readable(fields@),
        _ => true,
    }
}

/// Whether every item of `s` is readable.
pub open spec fn content_readable(s: Seq<Item>) -> bool
    decreases s,
{
    s.len() > 0 ==> {
        &&& content_readable(s.subrange(0, s.len() - 1))
        &&& readable(s[s.len() - 1])
    }
}

/// The first error, in source order, that rewriting `item` meets, if any.
pub open spec fn item_error(item: Item, recursive: bool) -> Option<ErrorView>
    decreases item,
{
    match item {
        Item::Const(m) | Item::Enum(m) | Item::Fn(m) | Item::Static(m) | Item::Trait(m)
        | Item::TraitAlias(m) | Item::Type(m) => member_error(m),
        Item::ForeignMod { attrs, items } => match scan(attrs@) {
            Err(e) => Some(e),
            Ok(true) => None,
            Ok(false) => foreign_items_error(items@),
        },
        Item::Impl { attrs, of_trait, items } => if of_trait {
            None
        } else {
            match scan(attrs@) {
                Err(e) => Some(e),
                Ok(true) => None,
                Ok(false) => impl_items_error(items@),
            }
        },
        Item::Mod { node, content: Some(v) } => match scan(node.attrs@) {
            Err(e) => Some(e),
            Ok(true) => None,
            Ok(false) => if recursive {
                content_error(v@, recursive)
            } else {
                None
            },
        },
        Item::Struct { node, fields } => match scan(node.attrs@) {
            Err(e) => Some(e),
            Ok(true) => None,
            Ok(false) => fields_error(fields),
        },
        Item::Union { node, fields } => match scan(node.attrs@) {
            Err(e) => Some(e),
            Ok(true) => None,
            Ok(false) => members_error(fields@),
        },
        _ => None,
    }
}

/// The first error that rewriting the items of `s` in order meets, if any.
pub open spec fn content_error(s: Seq<Item>, recursive: bool) -> Option<ErrorView>
    decreases s,
{
    if s.len() == 0 {
        None
    } else {
        match content_error(s.subrange(0, s.len() - 1), recursive) {
            Some(e) => Some(e),
            None => item_error(s[s.len() - 1], recursive),
        }
    }
}

/// `after` is what a successful rewrite makes of `before`.
pub open spec fn item_rewritten(before: Item, after: Item, recursive: bool) -> bool
    decreases before,
{
    match before {
        Item::Const(m) => after is Const && member_rewritten(m, after->Const_0),
        Item::Enum(m) => after is Enum && member_rewritten(m, after->Enum_0),
        Item::Fn(m) => after is Fn && member_rewritten(m, after->Fn_0),
        Item::Static(m) => after is Static && member_rewritten(m, after->Static_0),
        Item::Trait(m) => after is Trait && member_rewritten(m, after->Trait_0),
        Item::TraitAlias(m) => after is TraitAlias && member_rewritten(m, after->TraitAlias_0),
        Item::Type(m) => after is Type && member_rewritten(m, after->Type_0),
        Item::ForeignMod { attrs, items } => {
            &&& after is ForeignMod
            &&& after->ForeignMod_attrs@ == unmarked(attrs@)
            &&& if has_marker(attrs@) {
                after->ForeignMod_items == items
            } else {
                foreign_items_rewritten(items@, after->ForeignMod_items@)
            }
        },
        Item::Impl { attrs, of_trait, items } => if of_trait {
            after == before
        } else {
            &&& after is Impl
            &&& !after->Impl_of_trait
            &&& after->Impl_attrs@ == unmarked(attrs@)
            &&& if has_marker(attrs@) {
                after->Impl_items == items
            } else {
                impl_items_rewritten(items@, after->Impl_items@)
            }
        },
        Item::Mod { node, content: Some(v) } => {
            &&& after is Mod
            &&& member_rewritten(node, after->Mod_node)
            &&& after->Mod_content is Some
            &&& if !has_marker(node.attrs@) && recursive {
                content_rewritten(v@, after->Mod_content->0@, recursive)
            } else {
                after->Mod_content->0 == v
            }
        },
        Item::Struct { node, fields } => {
            &&& after is Struct
            &&& member_rewritten(node, after->Struct_node)
            &&& if !has_marker(node.attrs@) {
                fields_rewritten(fields, after->Struct_fields)
            } else {
                after->Struct_fields == fields
            }
        },
        Item::Union { node, fields } => {
            &&& after is Union
            &&& member_rewritten(node, after->Union_node)
            &&& if !has_marker(node.attrs@) {
                members_rewritten(fields@, after->Union_fields@)
            } else {
                after->Union_fields == fields
            }
        },
        _ => after == before,
    }
}

/// Each item of `after` is what a successful rewrite makes of the item of
/// `before` at its place.
pub open spec fn content_rewritten(before: Seq<Item>, after: Seq<Item>, recursive: bool) -> bool
    decreases before,
{
    &&& before.len() == after.len()
    &&& before.len() > 0 ==> {
        &&& content_rewritten(
            before.subrange(0, before.len() - 1),
            after.subrange(0, after.len() - 1),
            recursive,
        )
        &&& item_rewritten(before[before.len() - 1], after[after.len() - 1], recursive)
    }
}

proof fn lemma_first_error_step<T>(s: Seq<T>, k: int, err: spec_fn(T) -> Option<ErrorView>)
    requires
        0 <= k < s.len(),
    ensures
        first_error(s.take(k + 1), err) == match first_error(s.take(k), err) {
            Some(e) => Some(e),
            None => err(s[k]),
        },
{
    assert(s.take(k + 1).drop_last() =~= s.take(k));
}

proof fn lemma_first_error_persists<T>(s: Seq<T>, k: int, err: spec_fn(T) -> Option<ErrorView>)
    requires
        0 <= k <= s.len(),
        first_error(s.take(k), err) is Some,
    ensures
        first_error(s, err) == first_error(s.take(k), err),
    decreases s.len() - k,
{
    if k < s.len() {
        lemma_first_error_step(s, k, err);
        lemma_first_error_persists(s, k + 1, err);
    } else {
        assert(s.take(k) =~= s);
    }
}

/// Sets this visibility to public.
pub fn make_pub(vis: &mut Visibility)
    ensures
        *final(vis) == Visibility::Public,
{
    *vis = Visibility::Public;
}

/// Scans the attributes of `m` and makes it public unless it is excluded.
fn rewrite_member(m: &mut Member) -> (r: Result<(), RewriteError>)
    ensures
        r is Ok ==> member_rewritten(*old(m), *final(m)),
        attrs_readable(old(m).attrs@) ==> error_of(r) == member_error(*old(m)),
{
    let excluded = match is_exclude(&mut m.attrs) {
        Ok(b) => b,
        Err(e) => {
            return Err(e);
        },
    };
    if !excluded {
        make_pub(&mut m.vis);
    }
    Ok(())
}

/// Rewrites each member of `ms` in order.
fn rewrite_members(ms: &mut Vec<Member>) -> (r: Result<(), RewriteError>)
    ensures
        r is Ok ==> members_rewritten(old(ms)@, final(ms)@),
        members_readable(old(ms)@) ==> error_of(r) == members_error(old(ms)@),
{
    let ghost orig = ms@;
    let ghost err = member_error_fn();
    let mut k: usize = 0;
    while k < ms.len()
        invariant
            orig == old(ms)@,
            ms@.len() == orig.len(),
            0 <= k <= orig.len(),
            members_rewritten(orig.take(k as int), ms@.take(k as int)),
            forall|i: int| k <= i < orig.len() ==> ms@[i] == orig[i],
            err == member_error_fn(),
            members_readable(orig) ==> first_error(orig.take(k as int), err) is None,
        decreases orig.len() - k,
    {
        proof {
            lemma_first_error_step(orig, k as int, err);
            assert(err(orig[k as int]) == member_error(orig[k as int]));
        }
        let ghost before = ms@;
        match rewrite_member(&mut ms[k]) {
            Ok(()) => {},
            Err(e) => {
                proof {
                    if members_readable(orig) {
                        assert(attrs_readable(orig[k as int].attrs@));
                        lemma_first_error_persists(orig, k + 1, err);
                    }
                }
                return Err(e);
            },
        }
        proof {
            assert(ms@.take(k + 1) =~= ms@.take(k as int).push(ms@[k as int]));
            assert(ms@.take(k as int) =~= before.take(k as int));
            assert(orig.take(k + 1) =~= orig.take(k as int).push(orig[k as int]));
        }
        k = k + 1;
    }
    proof {
        assert(orig.take(k as int) =~= orig);
        assert(ms@.take(k as int) =~= ms@);
    }
    Ok(())
}

/// Rewrites a function, static or type of a foreign block; leaves other kinds alone.
fn rewrite_foreign_item(f: &mut ForeignItem) -> (r: Result<(), RewriteError>)
    ensures
        r is Ok ==> foreign_item_rewritten(*old(f), *final(f)),
        foreign_item_readable(*old(f)) ==> error_of(r) == foreign_item_error(*old(f)),
{
    match f {
        ForeignItem::Fn(m) => rewrite_member(m),
        ForeignItem::Static(m) => rewrite_member(m),
        ForeignItem::Type(m) => rewrite_member(m),
        ForeignItem::Macro | ForeignItem::Verbatim => Ok(()),
    }
}

/// Rewrites a constant, function or type of an `impl` block; leaves other kinds alone.
fn rewrite_impl_item(f: &mut ImplItem) -> (r: Result<(), RewriteError>)
    ensures
        r is Ok ==> impl_item_rewritten(*old(f), *final(f)),
        impl_item_readable(*old(f)) ==> error_of(r) == impl_item_error(*old(f)),
{
    match f {
        ImplItem::Const(m) => rewrite_member(m),
        ImplItem::Fn(m) => rewrite_member(m),
        ImplItem::Type(m) => rewrite_member(m),
        ImplItem::Macro | ImplItem::Verbatim => Ok(()),
    }
}

/// Rewrites each item of a foreign block in order.
fn rewrite_foreign_items(ms: &mut Vec<ForeignItem>) -> (r: Result<(), RewriteError>)
    ensures
        r is Ok ==> foreign_items_rewritten(old(ms)@, final(ms)@),
        foreign_items_readable(old(ms)@) ==> error_of(r) == foreign_items_error(old(ms)@),
{
    let ghost orig = ms@;
    let ghost err = foreign_item_error_fn();
    let mut k: usize = 0;
    while k < ms.len()
        invariant
            orig == old(ms)@,
            ms@.len() == orig.len(),
            0 <= k <= orig.len(),
            foreign_items_rewritten(orig.take(k as int), ms@.take(k as int)),
            forall|i: int| k <= i < orig.len() ==> ms@[i] == orig[i],
            err == foreign_item_error_fn(),
            foreign_items_readable(orig) ==> first_error(orig.take(k as int), err) is None,
        decreases orig.len() - k,
    {
        proof {
            lemma_first_error_step(orig, k as int, err);
            assert(err(orig[k as int]) == foreign_item_error(orig[k as int]));
        }
        let ghost before = ms@;
        match rewrite_foreign_item(&mut ms[k]) {
            Ok(()) => {},
            Err(e) => {
                proof {
                    if foreign_items_readable(orig) {
                        assert(foreign_item_readable(orig[k as int]));
                        lemma_first_error_persists(orig, k + 1, err);
                    }
                }
                return Err(e);
            },
        }
        proof {
            assert(ms@.take(k + 1) =~= ms@.take(k as int).push(ms@[k as int]));
            assert(ms@.take(k as int) =~= before.take(k as int));
            assert(orig.take(k + 1) =~= orig.take(k as int).push(orig[k as int]));
        }
        k = k + 1;
    }
    proof {
        assert(orig.take(k as int) =~= orig);
        assert(ms@.take(k as int) =~= ms@);
    }
    Ok(())
}

/// Rewrites each associated item of an `impl` block in order.
fn rewrite_impl_items(ms: &mut Vec<ImplItem>) -> (r: Result<(), RewriteError>)
    ensures
        r is Ok ==> impl_items_rewritten(old(ms)@, final(ms)@),
        impl_items_readable(old(ms)@) ==> error_of(r) == impl_items_error(old(ms)@),
{
    let ghost orig = ms@;
    let ghost err = impl_item_error_fn();
    let mut k: usize = 0;
    while k < ms.len()
        invariant
            orig == old(ms)@,
            ms@.len() == orig.len(),
            0 <= k <= orig.len(),
            impl_items_rewritten(orig.take(k as int), ms@.take(k as int)),
            forall|i: int| k <= i < orig.len() ==> ms@[i] == orig[i],
            err == impl_item_error_fn(),
            impl_items_readable(orig) ==> first_error(orig.take(k as int), err) is None,
        decreases orig.len() - k,
    {
        proof {
            lemma_first_error_step(orig, k as int, err);
            assert(err(orig[k as int]) == impl_item_error(orig[k as int]));
        }
        let ghost before = ms@;
        match rewrite_impl_item(&mut ms[k]) {
            Ok(()) => {},
            Err(e) => {
                proof {
                    if impl_items_readable(orig) {
                        assert(impl_item_readable(orig[k as int]));
                        lemma_first_error_persists(orig, k + 1, err);
                    }
                }
                return Err(e);
            },
        }
        proof {
            assert(ms@.take(k + 1) =~= ms@.take(k as int).push(ms@[k as int]));
            assert(ms@.take(k as int) =~= before.take(k as int));
            assert(orig.take(k + 1) =~= orig.take(k as int).push(orig[k as int]));
        }
        k = k + 1;
    }
    proof {
        assert(orig.take(k as int) =~= orig);
        assert(ms@.take(k as int) =~= ms@);
    }
    Ok(())
}

proof fn lemma_content_step(s: Seq<Item>, t: Seq<Item>, k: int, recursive: bool)
    requires
        0 <= k < s.len(),
        k < t.len(),
    ensures
        content_error(s.take(k + 1), recursive) == match content_error(s.take(k), recursive) {
            Some(e) => Some(e),
            None => item_error(s[k], recursive),
        },
        content_rewritten(s.take(k + 1), t.take(k + 1), recursive) == (content_rewritten(
            s.take(k),
            t.take(k),
            recursive,
        ) && item_rewritten(s[k], t[k], recursive)),
{
    assert(s.take(k + 1).subrange(0, k) =~= s.take(k));
    assert(t.take(k + 1).subrange(0, k) =~= t.take(k));
}

proof fn lemma_content_error_persists(s: Seq<Item>, k: int, recursive: bool)
    requires
        0 <= k <= s.len(),
        content_error(s.take(k), recursive) is Some,
    ensures
        content_error(s, recursive) == content_error(s.take(k), recursive),
    decreases s.len() - k,
{
    if k < s.len() {
        lemma_content_step(s, s, k, recursive);
        lemma_content_error_persists(s, k + 1, recursive);
    } else {
        assert(s.take(k) =~= s);
    }
}

proof fn lemma_content_readable_at(s: Seq<Item>, k: int)
    requires
        content_readable(s),
        0 <= k < s.len(),
    ensures
        readable(s[k]),
    decreases s.len(),
{
    let n = s.len() - 1;
    if k < n {
        lemma_content_readable_at(s.subrange(0, n), k);
        assert(s.subrange(0, n)[k] == s[k]);
    }
}

/// Rewrites each item of a module's body in order, each with its own exclusion.
fn rewrite_content(items: &mut Vec<Item>, recursive: bool) -> (r: Result<(), RewriteError>)
    ensures
        r is Ok ==> content_rewritten(old(items)@, final(items)@, recursive),
        content_readable(old(items)@) ==> error_of(r) == content_error(old(items)@, recursive),
    decreases *old(items), 0nat,
{
    let ghost orig = items@;
    let mut k: usize = 0;
    proof {
        assert(orig.take(0) =~= Seq::<Item>::empty());
        assert(items@.take(0) =~= Seq::<Item>::empty());
    }
    while k < items.len()
        invariant
            orig == old(items)@,
            items@.len() == orig.len(),
            0 <= k <= orig.len(),
            content_rewritten(orig.take(k as int), items@.take(k as int), recursive),
            forall|i: int| k <= i < orig.len() ==> items@[i] == orig[i],
            content_readable(orig) ==> content_error(orig.take(k as int), recursive) is None,
        decreases orig.len() - k,
    {
        proof {
            lemma_content_step(orig, orig, k as int, recursive);
            if content_readable(orig) {
                lemma_content_readable_at(orig, k as int);
            }
        }
        let ghost before = items@;
        match explore_item(&mut items[k], recursive) {
            Ok(()) => {},
            Err(e) => {
                proof {
                    if content_readable(orig) {
                        lemma_content_error_persists(orig, k + 1, recursive);
                    }
                }
                return Err(e);
            },
        }
        proof {
            assert(items@.take(k as int) =~= before.take(k as int));
            lemma_content_step(orig, items@, k as int, recursive);
        }
        k = k + 1;
    }
    proof {
        assert(orig.take(k as int) =~= orig);
        assert(items@.take(k as int) =~= items@);
    }
    Ok(())
}

/// Rewrites `item`, and with `recursive` the bodies of its modules at every
/// depth: every declaration it reaches that is not excluded becomes public,
/// and every exclusion marker it reaches is taken out.
///
/// Fails with the first error met in source order; what then stays in `item`
/// is unspecified. Which error that is, and whether one comes at all, is fixed
/// where every marker's argument is ASCII text.
pub fn explore_item(item: &mut Item, recursive: bool) -> (r: Result<(), RewriteError>)
    ensures
        r is Ok ==> item_rewritten(*old(item), *final(item), recursive),
        readable(*old(item)) ==> error_of(r) == item_error(*old(item), recursive),
    decreases *old(item), 1nat,
{
    match item {
        Item::Const(m) => rewrite_member(m),
        Item::Enum(m) => rewrite_member(m),
        Item::Fn(m) => rewrite_member(m),
        Item::Static(m) => rewrite_member(m),
        Item::Trait(m) => rewrite_member(m),
        Item::TraitAlias(m) => rewrite_member(m),
        Item::Type(m) => rewrite_member(m),
        Item::ExternCrate | Item::Macro | Item::Use => Ok(()),
        Item::ForeignMod { attrs, items } => match is_exclude(attrs) {
            Err(e) => Err(e),
            Ok(true) => Ok(()),
            Ok(false) => rewrite_foreign_items(items),
        },
        Item::Impl { attrs, of_trait, items } => {
            if *of_trait {
                return Ok(());
            }
            match is_exclude(attrs) {
                Err(e) => Err(e),
                Ok(true) => Ok(()),
                Ok(false) => rewrite_impl_items(items),
            }
        },
        Item::Mod { node, content: Some(content) } => match is_exclude(&mut node.attrs) {
            Err(e) => Err(e),
            Ok(true) => Ok(()),
            Ok(false) => {
                make_pub(&mut node.vis);
                if recursive {
                    rewrite_content(content, recursive)
                } else {
                    Ok(())
                }
            },
        },
        Item::Struct { node, fields } => match is_exclude(&mut node.attrs) {
            Err(e) => Err(e),
            Ok(true) => Ok(()),
            Ok(false) => {
                make_pub(&mut node.vis);
                match fields {
                    Fields::Named(v) => rewrite_members(v),
                    Fields::Unnamed(v) => rewrite_members(v),
                    Fields::Unit => Ok(()),
                }
            },
        },
        Item::Union { node, fields } => match is_exclude(&mut node.attrs) {
            Err(e) => Err(e),
            Ok(true) => Ok(()),
            Ok(false) => {
                make_pub(&mut node.vis);
                rewrite_members(fields)
            },
        },
        _ => Ok(()),
    }
}

/// The argument that turns on recursive mode.
pub const RECURSIVE_KEYWORD: &'static str = "recursive";

/// The mode that the invocation's argument asks for: `Some(recursive)`, or
/// `None` when the argument is not one the invocation accepts.
pub open spec fn recursion_mode(attr: Option<String>) -> Option<bool> {
    match attr {
        None => Some(false),
        Some(a) => if a@ == RECURSIVE_KEYWORD@ {
            Some(true)
        } else {
            None
        },
    }
}

/// Reads the invocation's argument (`recursive`, or none) and then rewrites
/// `item` in that mode.
///
/// Any other argument fails with `InvalidConfigurationArgument` and leaves
/// `item` as it was.
pub fn make_fully_pub(attr: Option<String>, item: &mut Item) -> (r: Result<(), RewriteError>)
    ensures
        match recursion_mode(attr) {
            None => {
                &&& *final(item) == *old(item)
                &&& r is Err
                &&& r->Err_0@ == ErrorView::InvalidConfigurationArgument { arg: attr->0@ }
            },
            Some(recursive) => {
                &&& r is Ok ==> item_rewritten(*old(item), *final(item), recursive)
                &&& readable(*old(item)) ==> error_of(r) == item_error(*old(item), recursive)
            },
        },
{
    let recursive = match attr {
        None => false,
        Some(arg) => {
            if text_is(&arg, RECURSIVE_KEYWORD) {
                true
            } else {
                return Err(RewriteError::InvalidConfigurationArgument { arg });
            }
        },
    };
    explore_item(item, recursive)
}

} // verus!
