use vstd::prelude::*;

pub mod mmd_formater;

pub use mmd_formater::MMDFormater;

use crate::syntax::Visibility;

verus! {

/// Visibility of a class member as the diagram shows it.
#[derive(Clone, Copy, Debug, PartialEq, Eq, Structural)]
pub enum Vis {
    Public,
    Internal,
    /// Never produced from source; kept for diagrams written by hand.
    Protected,
    Private,
}

impl Default for Vis {
    fn default() -> (r: Vis)
        ensures
            r == Vis::Private,
    {
        Vis::Private
    }
}

/// The diagram visibility of a source visibility marker, where an unmarked
/// item takes `inherited`.
pub open spec fn vis_of(v: Visibility, inherited: Vis) -> Vis {
    match v {
        Visibility::Public => Vis::Public,
        Visibility::Restricted(path) => if path matches Some(p) && p@ == self_keyword() {
            Vis::Private
        } else {
            Vis::Internal
        },
        Visibility::Inherited => inherited,
    }
}

/// The text `self`.
pub open spec fn self_keyword() -> Seq<char> {
    seq!['s', 'e', 'l', 'f']
}

/// Resolves a visibility marker, with `inherited` for an unmarked item.
pub fn resolve_vis(v: &Visibility, inherited: Vis) -> (r: Vis)
    ensures
        r == vis_of(*v, inherited),
{
    match v {
        Visibility::Public => Vis::Public,
        Visibility::Restricted(path) => {
            match path {
                Some(p) => {
                    let kw: String = "self".to_owned();
                    proof {
                        reveal_strlit("self");
                        assert(kw@ =~= self_keyword());
                    }
                    if *p == kw {
                        Vis::Private
                    } else {
                        Vis::Internal
                    }
                },
                None => Vis::Internal,
            }
        },
        Visibility::Inherited => inherited,
    }
}

impl From<Visibility> for Vis {
    /// An unmarked item is private.
    fn from(value: Visibility) -> (r: Vis)
        ensures
            r == vis_of(value, Vis::Private),
    {
        resolve_vis(&value, Vis::Private)
    }
}

impl vstd::std_specs::convert::FromSpecImpl<Visibility> for Vis {
    open spec fn obeys_from_spec() -> bool {
        true
    }

    open spec fn from_spec(v: Visibility) -> Vis {
        vis_of(v, Vis::Private)
    }
}

/// Renders the fragments of a class diagram.
///
/// Each rendering is a function of its arguments alone, given by the spec
/// function named beside it.
pub trait ClassDiagramFormater {
    spec fn class_text(&self, name: Seq<char>) -> Seq<char>;

    spec fn field_text(&self, vis: Seq<char>, name: Seq<char>, ty: Seq<char>) -> Seq<char>;

    spec fn link_text(
        &self,
        clazz1: Seq<char>,
        cardinality1: Seq<char>,
        clazz2: Seq<char>,
        cardinality2: Seq<char>,
        label: Seq<char>,
    ) -> Seq<char>;

    spec fn class_end_text(&self) -> Seq<char>;

    spec fn fn_text(
        &self,
        clazz: Seq<char>,
        vis: Seq<char>,
        method_name: Seq<char>,
        inputs: Seq<(Seq<char>, Seq<char>)>,
        output: Seq<char>,
    ) -> Seq<char>;

    spec fn vis_text(&self, vis: Vis) -> Seq<char>;

    fn format_class(&self, name: String) -> (r: String)
        ensures
            r@ == self.class_text(name@),
    ;

    fn format_field(&self, vis: String, name: String, ty: String) -> (r: String)
        ensures
            r@ == self.field_text(vis@, name@, ty@),
    ;

    fn format_link(
        &self,
        clazz1: String,
        cardinality1: String,
        clazz2: String,
        cardinality2: String,
        label: String,
    ) -> (r: String)
        ensures
            r@ == self.link_text(clazz1@, cardinality1@, clazz2@, cardinality2@, label@),
    ;

    fn format_class_end(&self) -> (r: String)
        ensures
            r@ == self.class_end_text(),
    ;

    fn format_fn(
        &self,
        clazz: String,
        vis: String,
        method_name: String,
        inputs: Vec<(String, String)>,
        output: String,
    ) -> (r: String)
        ensures
            r@ == self.fn_text(clazz@, vis@, method_name@, pair_texts(inputs@), output@),
    ;

    fn format_vis(&self, vis: Vis) -> (r: String)
        ensures
            r@ == self.vis_text(vis),
    ;
}

/// The text of each string pair.
pub open spec fn pair_texts(v: Seq<(String, String)>) -> Seq<(Seq<char>, Seq<char>)> {
    v.map_values(|p: (String, String)| (p.0@, p.1@))
}

} // verus!
