//! The declaration tree that the rewrite works on.
//!
//! Only what the rewrite reads or changes is held here: visibilities, attribute
//! lists and the nesting of members. Everything else about a declaration (names,
//! types, bodies) stays with the host that built the tree.
use vstd::prelude::*;

verus! {

/// Whether a declaration can be seen from outside its module.
///
/// `Private` stands for every visibility narrower than `pub`: the inherited
/// default as well as restricted forms such as `pub(crate)`.
#[derive(Clone, Copy, Debug, PartialEq, Eq, Structural)]
pub enum Visibility {
    Private,
    Public,
}

/// What follows the path of an attribute.
#[derive(Clone, Debug, PartialEq, Eq)]
pub enum AttrArgs {
    /// A bare path: `#[name]`.
    Path,
    /// A parenthesised list, holding the text between the delimiters: `#[name(...)]`.
    List(String),
    /// A name-value pair: `#[name = ...]`.
    NameValue,
}

/// One attribute attached to a declaration.
#[derive(Clone, Debug, PartialEq, Eq)]
pub struct Attribute {
    /// The attribute's path as written, segments joined by `::`
    /// (with a leading `::` where the source has one).
    pub path: String,
    pub args: AttrArgs,
    /// A number the host assigns so that it can find the attribute's source again.
    pub origin: u64,
}

/// A declaration that carries its own visibility and attributes: a field, an
/// associated item, an item of a foreign block, or an item itself.
#[derive(Clone, Debug, PartialEq, Eq)]
pub struct Member {
    pub vis: Visibility,
    pub attrs: Vec<Attribute>,
}

/// The fields of a struct.
#[derive(Clone, Debug, PartialEq, Eq)]
pub enum Fields {
    Named(Vec<Member>),
    Unnamed(Vec<Member>),
    Unit,
}

/// An item inside a foreign function block.
#[derive(Clone, Debug, PartialEq, Eq)]
pub enum ForeignItem {
    Fn(Member),
    Static(Member),
    Type(Member),
    Macro,
    Verbatim,
}

/// An associated item inside an `impl` block.
#[derive(Clone, Debug, PartialEq, Eq)]
pub enum ImplItem {
    Const(Member),
    Fn(Member),
    Type(Member),
    Macro,
    Verbatim,
}

/// One declaration, by kind.
#[derive(Debug, PartialEq, Eq)]
pub enum Item {
    Const(Member),
    Enum(Member),
    Fn(Member),
    Static(Member),
    Trait(Member),
    TraitAlias(Member),
    Type(Member),
    ExternCrate,
    Macro,
    Use,
    /// A foreign block; the block itself has no visibility.
    ForeignMod { attrs: Vec<Attribute>, items: Vec<ForeignItem> },
    /// An `impl` block; `of_trait` is set when its header names a trait.
    Impl { attrs: Vec<Attribute>, of_trait: bool, items: Vec<ImplItem> },
    /// A module; `content` is `None` for a declaration without an inline body.
    Mod { node: Member, content: Option<Vec<Item>> },
    Struct { node: Member, fields: Fields },
    Union { node: Member, fields: Vec<Member> },
    /// Any other kind, which the rewrite passes through.
    Verbatim,
}

} // verus!
