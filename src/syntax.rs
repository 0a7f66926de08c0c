//! The parts of a Rust syntax tree that the diagram is derived from.
//!
//! Each type keeps, as plain values, only what the extraction reads.
use vstd::prelude::*;

verus! {

/// A visibility marker.
#[derive(Debug)]
pub enum Visibility {
    /// `pub`
    Public,
    /// `pub(crate)`, `pub(self)`, `pub(in path)`: the path, where it is a
    /// single identifier.
    Restricted(Option<String>),
    /// No marker.
    Inherited,
}

/// An attribute: its path, where that is a single identifier, and its
/// value, where it has the form `name = "string literal"`.
#[derive(Debug)]
pub struct Attribute {
    pub ident: Option<String>,
    pub str_value: Option<String>,
}

/// The qualifier of a raw pointer type.
#[derive(Clone, Copy, Debug, PartialEq, Eq, Structural)]
pub enum PtrKind {
    Const,
    Mut,
    Bare,
}

/// A type expression.
#[derive(Debug)]
pub enum Type {
    /// A path type: the identifier of its last segment.
    Path(String),
    /// `&T`, `&mut T`
    Reference(Box<Type>),
    /// `*const T`, `*mut T`
    Ptr(PtrKind, Box<Type>),
    /// `(T)`
    Paren(Box<Type>),
    /// `[T; N]`: the length's token where it is an integer literal.
    Array(Box<Type>, Option<String>),
    /// Any other shape.
    Other,
}

/// A field of a struct; `ident` is absent for a tuple-style field.
#[derive(Debug)]
pub struct Field {
    pub attrs: Vec<Attribute>,
    pub vis: Visibility,
    pub ident: Option<String>,
    pub ty: Type,
}

/// A struct declaration.
#[derive(Debug)]
pub struct ItemStruct {
    pub attrs: Vec<Attribute>,
    pub vis: Visibility,
    pub ident: String,
    pub fields: Vec<Field>,
}

/// A function parameter.
#[derive(Debug)]
pub enum FnArg {
    /// `self`, `&self`, `&mut self`
    Receiver,
    /// `pat: ty`: the pattern's identifier, where it is a plain identifier.
    Typed(Option<String>, Type),
}

/// A function signature.
#[derive(Debug)]
pub struct Signature {
    pub ident: String,
    pub inputs: Vec<FnArg>,
    /// Absent where the function returns `()` implicitly.
    pub output: Option<Type>,
}

/// An item of an implementation block.
#[derive(Debug)]
pub enum ImplItem {
    Fn(Visibility, Signature),
    Other,
}

/// An implementation block; `has_trait` tells `impl Trait for T` from
/// `impl T`.
#[derive(Debug)]
pub struct ItemImpl {
    pub has_trait: bool,
    pub self_ty: Type,
    pub items: Vec<ImplItem>,
}

/// A top-level or module-level item.
#[derive(Debug)]
pub enum Item {
    Struct(ItemStruct),
    Impl(ItemImpl),
    /// A module: its items where they are written inline.
    Mod(Option<Vec<Item>>),
    Other,
}

} // verus!
