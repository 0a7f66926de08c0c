//! Extraction of classes, relations and methods from a syntax tree.
use vstd::prelude::*;

use crate::formaters::{pair_texts, resolve_vis, vis_of, ClassDiagramFormater, Vis};
use crate::syntax::{
    Attribute, Field, FnArg, ImplItem, Item, ItemImpl, ItemStruct, PtrKind, Signature, Type,
    Visibility,
};
use crate::text::{
    decimal, decimal_text, lowercase, lowercase_of, match_groups, regex_error_text, regex_groups, text_less,
    text_lt, trim_of, trimmed,
};

verus! {

/// Why a run stops without a diagram.
#[derive(Clone, Debug, PartialEq, Eq)]
pub enum ErdError {
    /// A return type of a shape that the diagram cannot show.
    UnsupportedReturnType,
    /// The relation pattern did not compile: the regex engine's message.
    InvalidRelationPattern(String),
}

/// The text of each string.
pub open spec fn texts(v: Seq<String>) -> Seq<Seq<char>> {
    v.map_values(|s: String| s@)
}

/// The diagram text of a return type, with `Self` read as `clazz`; `None`
/// for a shape that has no such text.
pub open spec fn return_text(t: Type, clazz: Seq<char>) -> Option<Seq<char>>
    decreases t,
{
    match t {
        Type::Path(n) => Some(if n@ == "Self"@ { clazz } else { n@ }),
        Type::Reference(e) => match return_text(*e, clazz) {
            Some(s) => Some("&"@ + s),
            None => None,
        },
        Type::Ptr(k, e) => match return_text(*e, clazz) {
            Some(s) => Some(if k == PtrKind::Bare { "*"@ + s } else { "*const "@ + s }),
            None => None,
        },
        Type::Paren(e) => match return_text(*e, clazz) {
            Some(s) => Some("("@ + s + ")"@),
            None => None,
        },
        Type::Array(e, len) => match (return_text(*e, clazz), len) {
            (Some(s), Some(n)) => Some("["@ + s + "; "@ + n@ + "]"@),
            _ => None,
        },
        Type::Other => None,
    }
}

/// Renders a return type; `Self` stands for `self_clazz`.
pub fn parse_return_type(ty: &Type, self_clazz: &str) -> (r: Result<String, ErdError>)
    ensures
        match r {
            Ok(s) => return_text(*ty, self_clazz@) == Some(s@),
            Err(e) => return_text(*ty, self_clazz@) is None && e == ErdError::UnsupportedReturnType,
        },
    decreases ty,
{
    match ty {
        Type::Path(n) => {
            let kw = "Self".to_owned();
            if *n == kw {
                Ok(self_clazz.to_owned())
            } else {
                Ok(n.clone())
            }
        },
        Type::Reference(e) => {
            let s = parse_return_type(e, self_clazz)?;
            let mut r = "&".to_owned();
            r.append(s.as_str());
            Ok(r)
        },
        Type::Ptr(k, e) => {
            let s = parse_return_type(e, self_clazz)?;
            let mut r = match k {
                PtrKind::Bare => "*".to_owned(),
                _ => "*const ".to_owned(),
            };
            r.append(s.as_str());
            Ok(r)
        },
        Type::Paren(e) => {
            let s = parse_return_type(e, self_clazz)?;
            let mut r = "(".to_owned();
            r.append(s.as_str());
            r.append(")");
            Ok(r)
        },
        Type::Array(e, len) => {
            match len {
                Some(n) => {
                    let s = parse_return_type(e, self_clazz)?;
                    let mut r = "[".to_owned();
                    r.append(s.as_str());
                    r.append("; ");
                    r.append(n.as_str());
                    r.append("]");
                    Ok(r)
                },
                None => Err(ErdError::UnsupportedReturnType),
            }
        },
        Type::Other => Err(ErdError::UnsupportedReturnType),
    }
}

/// Resolves a visibility marker and renders it.
pub fn parse_vis<F: ClassDiagramFormater>(vis: &Visibility, fmt: &F, inherit_vis: Vis) -> (r: (
    Vis,
    String,
))
    ensures
        r.0 == vis_of(*vis, inherit_vis),
        r.1@ == fmt.vis_text(r.0),
{
    let v = resolve_vis(vis, inherit_vis);
    (v, fmt.format_vis(v))
}

/// The visibility that an unmarked method of the block takes: the class's
/// own in a trait implementation, private in an inherent one.
pub open spec fn default_vis(has_trait: bool, clazz_vis: Vis) -> Vis {
    if has_trait {
        clazz_vis
    } else {
        Vis::Private
    }
}

/// The (name, type) pairs of the parameters that are a plain identifier of
/// a path type; the others are left out.
pub open spec fn param_pairs(inputs: Seq<FnArg>) -> Seq<(Seq<char>, Seq<char>)>
    decreases inputs.len(),
{
    if inputs.len() == 0 {
        Seq::empty()
    } else {
        let rest = param_pairs(inputs.drop_last());
        match inputs.last() {
            FnArg::Typed(Some(p), Type::Path(t)) => rest.push((p@, t@)),
            _ => rest,
        }
    }
}

/// The line of one method, or `None` where its return type has no text.
pub open spec fn method_line<F: ClassDiagramFormater>(
    fmt: F,
    clazz: Seq<char>,
    inherit_vis: Vis,
    vis: Visibility,
    sig: Signature,
) -> Option<Seq<char>> {
    let out = match sig.output {
        None => Some(Seq::<char>::empty()),
        Some(t) => return_text(t, clazz),
    };
    match out {
        Some(o) => Some(
            fmt.fn_text(
                clazz,
                fmt.vis_text(vis_of(vis, inherit_vis)),
                sig.ident@,
                param_pairs(sig.inputs@),
                o,
            ),
        ),
        None => None,
    }
}

/// The method lines of a block's items, in order; `None` where one of them
/// has a return type without text.
pub open spec fn impl_lines<F: ClassDiagramFormater>(
    fmt: F,
    clazz: Seq<char>,
    inherit_vis: Vis,
    items: Seq<ImplItem>,
) -> Option<Seq<Seq<char>>>
    decreases items.len(),
{
    if items.len() == 0 {
        Some(Seq::empty())
    } else {
        match impl_lines(fmt, clazz, inherit_vis, items.drop_last()) {
            None => None,
            Some(ls) => match items.last() {
                ImplItem::Fn(v, sig) => match method_line(fmt, clazz, inherit_vis, v, sig) {
                    Some(l) => Some(ls.push(l)),
                    None => None,
                },
                ImplItem::Other => Some(ls),
            },
        }
    }
}

proof fn lemma_impl_lines_prefix_none<F: ClassDiagramFormater>(
    fmt: F,
    clazz: Seq<char>,
    inherit_vis: Vis,
    items: Seq<ImplItem>,
    n: int,
)
    requires
        0 <= n <= items.len(),
        impl_lines(fmt, clazz, inherit_vis, items.subrange(0, n)) is None,
    ensures
        impl_lines(fmt, clazz, inherit_vis, items) is None,
    decreases items.len() - n,
{
    if n < items.len() {
        assert(items.subrange(0, n + 1).drop_last() =~= items.subrange(0, n));
        lemma_impl_lines_prefix_none(fmt, clazz, inherit_vis, items, n + 1);
    } else {
        assert(items.subrange(0, n) =~= items);
    }
}

/// The parameters of a signature that the diagram shows.
pub fn parse_inputs(inputs: &Vec<FnArg>) -> (r: Vec<(String, String)>)
    ensures
        pair_texts(r@) == param_pairs(inputs@),
{
    let mut r: Vec<(String, String)> = Vec::new();
    let mut i: usize = 0;
    while i < inputs.len()
        invariant
            i <= inputs@.len(),
            pair_texts(r@) == param_pairs(inputs@.subrange(0, i as int)),
        decreases inputs@.len() - i,
    {
        let ghost before = r@;
        assert(inputs@.subrange(0, i + 1).drop_last() =~= inputs@.subrange(0, i as int));
        match &inputs[i] {
            FnArg::Typed(Some(p), Type::Path(t)) => {
                r.push((p.clone(), t.clone()));
                assert(pair_texts(r@) =~= pair_texts(before).push((p@, t@)));
            },
            _ => {},
        }
        i = i + 1;
    }
    assert(inputs@.subrange(0, i as int) =~= inputs@);
    r
}

/// Renders the methods of an implementation block for class `clazz`, whose
/// visibility is `clazz_vis`.
pub fn parse_impl<F: ClassDiagramFormater>(
    item: &ItemImpl,
    clazz: &String,
    clazz_vis: Vis,
    fmt: &F,
) -> (r: Result<Vec<String>, ErdError>)
    ensures
        match r {
            Ok(lines) => impl_lines(
                *fmt,
                clazz@,
                default_vis(item.has_trait, clazz_vis),
                item.items@,
            ) == Some(texts(lines@)),
            Err(e) => impl_lines(
                *fmt,
                clazz@,
                default_vis(item.has_trait, clazz_vis),
                item.items@,
            ) is None && e == ErdError::UnsupportedReturnType,
        },
{
    let inherit = if item.has_trait {
        clazz_vis
    } else {
        Vis::Private
    };
    let mut markdown: Vec<String> = Vec::new();
    let mut i: usize = 0;
    while i < item.items.len()
        invariant
            i <= item.items@.len(),
            inherit == default_vis(item.has_trait, clazz_vis),
            impl_lines(*fmt, clazz@, inherit, item.items@.subrange(0, i as int)) == Some(
                texts(markdown@),
            ),
        decreases item.items@.len() - i,
    {
        let ghost before = markdown@;
        assert(item.items@.subrange(0, i + 1).drop_last() =~= item.items@.subrange(0, i as int));
        match &item.items[i] {
            ImplItem::Fn(v, sig) => {
                let (_, vis) = parse_vis(v, fmt, inherit);
                let inputs = parse_inputs(&sig.inputs);
                let output = match &sig.output {
                    None => String::new(),
                    Some(t) => match parse_return_type(t, clazz.as_str()) {
                        Ok(o) => o,
                        Err(e) => {
                            proof {
                                lemma_impl_lines_prefix_none(
                                    *fmt,
                                    clazz@,
                                    inherit,
                                    item.items@,
                                    i + 1,
                                );
                            }
                            return Err(e);
                        },
                    },
                };
                markdown.push(fmt.format_fn(clazz.clone(), vis, sig.ident.clone(), inputs, output));
                assert(texts(markdown@) =~= texts(before).push(markdown@.last()@));
            },
            ImplItem::Other => {},
        }
        i = i + 1;
    }
    assert(item.items@.subrange(0, i as int) =~= item.items@);
    Ok(markdown)
}

/// The pattern of a relation annotation: `` `#[relation = CARD : LABEL]` ``.
pub const RELATION_META_REGEX: &'static str = r"^(?:`#\[relation(?:\s+)?=(?:\s+)?)(.+)(?:\s+)?:(?:\s+)?(.+)\]`$";

/// One edge of the relation table, keyed by its two class names in order.
#[derive(Debug)]
pub struct RelationEntry {
    pub first: String,
    pub second: String,
    pub line: String,
}

/// The relation table as (first class, second class, line).
pub open spec fn rel_model(v: Seq<RelationEntry>) -> Seq<(Seq<char>, Seq<char>, Seq<char>)> {
    v.map_values(|e: RelationEntry| (e.first@, e.second@, e.line@))
}

/// The table holds an edge under the key (`a`, `b`).
pub open spec fn has_key(rels: Seq<(Seq<char>, Seq<char>, Seq<char>)>, a: Seq<char>, b: Seq<char>) -> bool {
    exists|i: int| 0 <= i < rels.len() && rels[i].0 == a && rels[i].1 == b
}

/// No two edges of the table share a key.
pub open spec fn keys_unique(rels: Seq<(Seq<char>, Seq<char>, Seq<char>)>) -> bool {
    forall|i: int, j: int|
        0 <= i < rels.len() && 0 <= j < rels.len() && rels[i].0 == rels[j].0 && rels[i].1
            == rels[j].1 ==> i == j
}

/// The edge that class `clazz` declares toward type `ty`: keyed by the two
/// names in order, with the cardinality beside the name that sorts second
/// and the side of the first left blank.
pub open spec fn edge<F: ClassDiagramFormater>(
    fmt: F,
    clazz: Seq<char>,
    ty: Seq<char>,
    cardinality: Seq<char>,
    label: Seq<char>,
) -> (Seq<char>, Seq<char>, Seq<char>) {
    if text_lt(clazz, ty) {
        (clazz, ty, fmt.link_text(clazz, Seq::empty(), ty, cardinality, label))
    } else {
        (ty, clazz, fmt.link_text(ty, Seq::empty(), clazz, cardinality, label))
    }
}

/// Adds an edge unless its key is taken: the first edge for a key stays.
pub open spec fn insert_edge(
    rels: Seq<(Seq<char>, Seq<char>, Seq<char>)>,
    e: (Seq<char>, Seq<char>, Seq<char>),
) -> Seq<(Seq<char>, Seq<char>, Seq<char>)> {
    if has_key(rels, e.0, e.1) {
        rels
    } else {
        rels.push(e)
    }
}

/// An attribute named `doc`.
pub open spec fn is_doc(a: Attribute) -> bool {
    a.ident matches Some(i) && i@ == "doc"@
}

/// The string value of the first `doc` attribute, if it has one.
pub open spec fn doc_text(attrs: Seq<Attribute>) -> Option<Seq<char>>
    decreases attrs.len(),
{
    if attrs.len() == 0 {
        None
    } else if is_doc(attrs[0]) {
        match attrs[0].str_value {
            Some(v) => Some(v@),
            None => None,
        }
    } else {
        doc_text(attrs.drop_first())
    }
}

/// The relation annotation in a documentation text: `None` where the
/// pattern does not compile, else the trimmed cardinality and label where
/// the text matches.
pub open spec fn annotation(doc: Seq<char>) -> Option<Option<(Seq<char>, Seq<char>)>> {
    match regex_groups(RELATION_META_REGEX@, doc) {
        None => None,
        Some(None) => Some(None),
        Some(Some(g)) => Some(Some((trim_of(g.0), trim_of(g.1)))),
    }
}

/// The name a field shows: its identifier, or its position for a
/// tuple-style field.
pub open spec fn field_name(f: Field, i: nat) -> Seq<char> {
    match f.ident {
        Some(n) => n@,
        None => decimal(i),
    }
}

/// The lines and relation table after field `f`, at position `i` of class
/// `clazz`; `None` where the relation pattern does not compile.
pub open spec fn field_step<F: ClassDiagramFormater>(
    fmt: F,
    clazz: Seq<char>,
    f: Field,
    i: nat,
    lines: Seq<Seq<char>>,
    rels: Seq<(Seq<char>, Seq<char>, Seq<char>)>,
) -> Option<(Seq<Seq<char>>, Seq<(Seq<char>, Seq<char>, Seq<char>)>)> {
    match f.ty {
        Type::Path(t) => {
            let ls = lines.push(
                fmt.field_text(fmt.vis_text(vis_of(f.vis, Vis::Private)), field_name(f, i), t@),
            );
            match doc_text(f.attrs@) {
                None => Some((ls, rels)),
                Some(d) => match annotation(d) {
                    None => None,
                    Some(None) => Some((ls, rels)),
                    Some(Some(a)) => Some((ls, insert_edge(rels, edge(fmt, clazz, t@, a.0, a.1)))),
                },
            }
        },
        _ => Some((lines, rels)),
    }
}

/// `field_step` over the fields in order.
pub open spec fn fields_run<F: ClassDiagramFormater>(
    fmt: F,
    clazz: Seq<char>,
    fields: Seq<Field>,
    lines: Seq<Seq<char>>,
    rels: Seq<(Seq<char>, Seq<char>, Seq<char>)>,
) -> Option<(Seq<Seq<char>>, Seq<(Seq<char>, Seq<char>, Seq<char>)>)>
    decreases fields.len(),
{
    if fields.len() == 0 {
        Some((lines, rels))
    } else {
        match fields_run(fmt, clazz, fields.drop_last(), lines, rels) {
            None => None,
            Some(acc) => field_step(
                fmt,
                clazz,
                fields.last(),
                (fields.len() - 1) as nat,
                acc.0,
                acc.1,
            ),
        }
    }
}

/// What a struct yields: its visibility, its block of lines from header to
/// terminator, and the relation table after its fields.
pub open spec fn struct_result<F: ClassDiagramFormater>(
    fmt: F,
    s: ItemStruct,
    rels: Seq<(Seq<char>, Seq<char>, Seq<char>)>,
) -> Option<(Vis, Seq<Seq<char>>, Seq<(Seq<char>, Seq<char>, Seq<char>)>)> {
    match fields_run(fmt, s.ident@, s.fields@, seq![fmt.class_text(s.ident@)], rels) {
        None => None,
        Some(acc) => Some((vis_of(s.vis, Vis::Private), acc.0.push(fmt.class_end_text()), acc.1)),
    }
}

proof fn lemma_fields_run_prefix_none<F: ClassDiagramFormater>(
    fmt: F,
    clazz: Seq<char>,
    fields: Seq<Field>,
    lines: Seq<Seq<char>>,
    rels: Seq<(Seq<char>, Seq<char>, Seq<char>)>,
    n: int,
)
    requires
        0 <= n <= fields.len(),
        fields_run(fmt, clazz, fields.subrange(0, n), lines, rels) is None,
    ensures
        fields_run(fmt, clazz, fields, lines, rels) is None,
    decreases fields.len() - n,
{
    if n < fields.len() {
        assert(fields.subrange(0, n + 1).drop_last() =~= fields.subrange(0, n));
        lemma_fields_run_prefix_none(fmt, clazz, fields, lines, rels, n + 1);
    } else {
        assert(fields.subrange(0, n) =~= fields);
    }
}

/// Whether the table holds an edge under the key (`a`, `b`).
pub fn has_relation(rels: &Vec<RelationEntry>, a: &String, b: &String) -> (r: bool)
    ensures
        r == has_key(rel_model(rels@), a@, b@),
{
    let mut i: usize = 0;
    while i < rels.len()
        invariant
            i <= rels@.len(),
            forall|j: int|
                0 <= j < i ==> !(rel_model(rels@)[j].0 == a@ && rel_model(rels@)[j].1 == b@),
        decreases rels@.len() - i,
    {
        if rels[i].first == *a && rels[i].second == *b {
            assert(rel_model(rels@)[i as int].0 == a@);
            return true;
        }
        i = i + 1;
    }
    false
}

/// Adds the edge unless its key is taken.
pub fn add_relation(rels: &mut Vec<RelationEntry>, e: RelationEntry)
    ensures
        rel_model(final(rels)@) == insert_edge(
            rel_model(old(rels)@),
            (e.first@, e.second@, e.line@),
        ),
{
    if !has_relation(rels, &e.first, &e.second) {
        let ghost before = rels@;
        rels.push(e);
        assert(rel_model(rels@) =~= rel_model(before).push((e.first@, e.second@, e.line@)));
    }
}

/// The edge that class `clazz` declares toward type `ty` with the given
/// cardinality and label.
pub fn relation_entry<F: ClassDiagramFormater>(
    fmt: &F,
    clazz: &String,
    ty: &String,
    card: String,
    label: String,
) -> (r: RelationEntry)
    ensures
        (r.first@, r.second@, r.line@) == edge(*fmt, clazz@, ty@, card@, label@),
{
    let (lo, hi) = if text_less(clazz.as_str(), ty.as_str()) {
        (clazz, ty)
    } else {
        (ty, clazz)
    };
    RelationEntry {
        first: lo.clone(),
        second: hi.clone(),
        line: fmt.format_link(lo.clone(), String::new(), hi.clone(), card, label),
    }
}

/// The value of the first `doc` attribute, if it has one.
pub fn doc_of(attrs: &Vec<Attribute>) -> (r: Option<String>)
    ensures
        match r {
            Some(s) => doc_text(attrs@) == Some(s@),
            None => doc_text(attrs@) is None,
        },
{
    let mut i: usize = 0;
    let kw = "doc".to_owned();
    assert(attrs@.subrange(0, attrs@.len() as int) =~= attrs@);
    while i < attrs.len()
        invariant
            i <= attrs@.len(),
            kw@ == "doc"@,
            doc_text(attrs@) == doc_text(attrs@.subrange(i as int, attrs@.len() as int)),
        decreases attrs@.len() - i,
    {
        let ghost rest = attrs@.subrange(i as int, attrs@.len() as int);
        assert(rest.drop_first() =~= attrs@.subrange(i + 1, attrs@.len() as int));
        let is_doc_attr = match &attrs[i].ident {
            Some(n) => *n == kw,
            None => false,
        };
        if is_doc_attr {
            return match &attrs[i].str_value {
                Some(v) => Some(v.clone()),
                None => None,
            };
        }
        i = i + 1;
    }
    None
}

/// The relation annotation in a documentation text, trimmed.
pub fn parse_annotation(doc: &String) -> (r: Result<Option<(String, String)>, ErdError>)
    ensures
        match r {
            Ok(Some(a)) => annotation(doc@) == Some(Some((a.0@, a.1@))),
            Ok(None) => annotation(doc@) == Some(None::<(Seq<char>, Seq<char>)>),
            Err(e) => annotation(doc@) is None && e is InvalidRelationPattern,
        },
{
    match match_groups(RELATION_META_REGEX, doc.as_str()) {
        Ok(Some(g)) => Ok(Some((trimmed(g.0.as_str()), trimmed(g.1.as_str())))),
        Ok(None) => Ok(None),
        Err(e) => Err(ErdError::InvalidRelationPattern(regex_error_text(&e))),
    }
}

/// Renders the fields of a struct as a class block and adds the relations
/// that they declare to `rel_map`.
pub fn parse_fields<F: ClassDiagramFormater>(
    item: &ItemStruct,
    fmt: &F,
    rel_map: &mut Vec<RelationEntry>,
) -> (r: Result<(Vis, Vec<String>), ErdError>)
    ensures
        match r {
            Ok(res) => struct_result(*fmt, *item, rel_model(old(rel_map)@)) == Some(
                (res.0, texts(res.1@), rel_model(final(rel_map)@)),
            ),
            Err(e) => struct_result(*fmt, *item, rel_model(old(rel_map)@)) is None && e is InvalidRelationPattern,
        },
{
    let clazz = &item.ident;
    let clazz_vis = resolve_vis(&item.vis, Vis::Private);
    let ghost rels0 = rel_model(rel_map@);
    let ghost lines0 = seq![fmt.class_text(clazz@)];
    let mut markdown: Vec<String> = Vec::new();
    markdown.push(fmt.format_class(clazz.clone()));
    assert(texts(markdown@) =~= lines0);
    let mut i: usize = 0;
    while i < item.fields.len()
        invariant
            i <= item.fields@.len(),
            clazz == &item.ident,
            rels0 == rel_model(old(rel_map)@),
            lines0 == seq![fmt.class_text(clazz@)],
            fields_run(*fmt, clazz@, item.fields@.subrange(0, i as int), lines0, rels0) == Some(
                (texts(markdown@), rel_model(rel_map@)),
            ),
        decreases item.fields@.len() - i,
    {
        let ghost before = markdown@;
        assert(item.fields@.subrange(0, i + 1).drop_last() =~= item.fields@.subrange(0, i as int));
        let field = &item.fields[i];
        let prop = match &field.ident {
            Some(n) => n.clone(),
            None => decimal_text(i),
        };
        let (_, vis) = parse_vis(&field.vis, fmt, Vis::Private);
        match &field.ty {
            Type::Path(ty) => {
                markdown.push(fmt.format_field(vis, prop, ty.clone()));
                assert(texts(markdown@) =~= texts(before).push(markdown@.last()@));
                match doc_of(&field.attrs) {
                    None => {},
                    Some(doc) => {
                        match parse_annotation(&doc) {
                            Err(e) => {
                                proof {
                                    assert(fields_run(
                                        *fmt,
                                        clazz@,
                                        item.fields@.subrange(0, i + 1),
                                        lines0,
                                        rels0,
                                    ) is None);
                                    lemma_fields_run_prefix_none(
                                        *fmt,
                                        clazz@,
                                        item.fields@,
                                        lines0,
                                        rels0,
                                        i + 1,
                                    );
                                }
                                return Err(e);
                            },
                            Ok(None) => {},
                            Ok(Some((card, label))) => {
                                let e = relation_entry(fmt, clazz, ty, card, label);
                                add_relation(rel_map, e);
                            },
                        }
                    },
                }
            },
            _ => {},
        }
        i = i + 1;
    }
    assert(item.fields@.subrange(0, i as int) =~= item.fields@);
    markdown.push(fmt.format_class_end());
    proof {
        let ghost pre = texts(markdown@.drop_last());
        assert(texts(markdown@) =~= pre.push(fmt.class_end_text()));
    }
    Ok((clazz_vis, markdown))
}

/// The settings of a run: which structs qualify, where the project lies,
/// where the diagram goes and its title.
#[derive(Debug)]
pub struct Args {
    /// Name suffix of the structs to include; it also names, in lower case,
    /// the attribute that marks a struct for inclusion. Empty: every struct.
    pub suffix: String,
    /// Working directory.
    pub dir: Option<String>,
    /// Output file name, ending in `.mmd` or `.md`.
    pub output: String,
    /// Diagram title.
    pub title: String,
}

/// A class: its name, visibility and lines from header to terminator.
#[derive(Debug)]
pub struct ClassEntry {
    pub name: String,
    pub vis: Vis,
    pub lines: Vec<String>,
}

/// The method lines of a class.
#[derive(Debug)]
pub struct MethodEntry {
    pub class: String,
    pub lines: Vec<String>,
}

/// The three tables that a walk fills, each in order of discovery.
#[derive(Debug)]
pub struct Tables {
    pub classes: Vec<ClassEntry>,
    pub relations: Vec<RelationEntry>,
    pub methods: Vec<MethodEntry>,
}

pub type ClassModel = Seq<(Seq<char>, Vis, Seq<Seq<char>>)>;

pub type RelModel = Seq<(Seq<char>, Seq<char>, Seq<char>)>;

pub type MethodModel = Seq<(Seq<char>, Seq<Seq<char>>)>;

pub type TablesModel = (ClassModel, RelModel, MethodModel);

pub open spec fn class_model(v: Seq<ClassEntry>) -> ClassModel {
    v.map_values(|e: ClassEntry| (e.name@, e.vis, texts(e.lines@)))
}

pub open spec fn method_model(v: Seq<MethodEntry>) -> MethodModel {
    v.map_values(|e: MethodEntry| (e.class@, texts(e.lines@)))
}

pub open spec fn tables_model(t: Tables) -> TablesModel {
    (class_model(t.classes@), rel_model(t.relations@), method_model(t.methods@))
}

impl Tables {
    /// Empty tables.
    pub fn new() -> (r: Tables)
        ensures
            tables_model(r) == (
                ClassModel::empty(),
                RelModel::empty(),
                MethodModel::empty(),
            ),
    {
        let r = Tables { classes: Vec::new(), relations: Vec::new(), methods: Vec::new() };
        assert(class_model(r.classes@) =~= ClassModel::empty());
        assert(rel_model(r.relations@) =~= RelModel::empty());
        assert(method_model(r.methods@) =~= MethodModel::empty());
        r
    }
}

/// The position of the class named `name`.
pub open spec fn find_class(cs: ClassModel, name: Seq<char>) -> Option<int>
    decreases cs.len(),
{
    if cs.len() == 0 {
        None
    } else if cs.last().0 == name {
        Some(cs.len() - 1)
    } else {
        find_class(cs.drop_last(), name)
    }
}

/// The position of the method lines of the class named `name`.
pub open spec fn find_methods(ms: MethodModel, name: Seq<char>) -> Option<int>
    decreases ms.len(),
{
    if ms.len() == 0 {
        None
    } else if ms.last().0 == name {
        Some(ms.len() - 1)
    } else {
        find_methods(ms.drop_last(), name)
    }
}

/// `name` ends with `suffix`.
pub open spec fn ends_with(name: Seq<char>, suffix: Seq<char>) -> bool {
    suffix.len() <= name.len() && name.subrange(name.len() - suffix.len(), name.len() as int)
        == suffix
}

/// One of the attributes is the single identifier `flag`.
pub open spec fn has_attr(attrs: Seq<Attribute>, flag: Seq<char>) -> bool {
    exists|i: int| 0 <= i < attrs.len() && names_attr(#[trigger] attrs[i], flag)
}

/// The attribute's path is the single identifier `name`.
pub open spec fn names_attr(a: Attribute, name: Seq<char>) -> bool {
    a.ident matches Some(n) && n@ == name
}

/// A struct is drawn where it carries the marker attribute `flag`, where its
/// name ends with `suffix`, or where `suffix` is empty.
pub open spec fn qualifies(s: ItemStruct, suffix: Seq<char>, flag: Seq<char>) -> bool {
    has_attr(s.attrs@, flag) || ends_with(s.ident@, suffix) || suffix.len() == 0
}

/// The tables after a struct.
pub open spec fn struct_step<F: ClassDiagramFormater>(
    fmt: F,
    suffix: Seq<char>,
    flag: Seq<char>,
    s: ItemStruct,
    t: TablesModel,
) -> Option<TablesModel> {
    if !qualifies(s, suffix, flag) {
        Some(t)
    } else {
        let cs = if find_class(t.0, s.ident@) is Some {
            t.0
        } else {
            t.0.push((s.ident@, Vis::Private, Seq::empty()))
        };
        match struct_result(fmt, s, t.1) {
            None => None,
            Some(r) => {
                let i = find_class(cs, s.ident@).unwrap();
                Some((cs.update(i, (s.ident@, r.0, cs[i].2 + r.1)), r.2, t.2))
            },
        }
    }
}

/// The visibility of class `name`, private while it is unknown.
pub open spec fn class_vis(cs: ClassModel, name: Seq<char>) -> Vis {
    match find_class(cs, name) {
        Some(i) => cs[i].1,
        None => Vis::Private,
    }
}

/// The tables after an implementation block.
pub open spec fn impl_step<F: ClassDiagramFormater>(
    fmt: F,
    b: ItemImpl,
    t: TablesModel,
) -> Option<TablesModel> {
    match b.self_ty {
        Type::Path(c) => {
            let ms = if find_methods(t.2, c@) is Some {
                t.2
            } else {
                t.2.push((c@, Seq::empty()))
            };
            match impl_lines(fmt, c@, default_vis(b.has_trait, class_vis(t.0, c@)), b.items@) {
                None => None,
                Some(ls) => {
                    let i = find_methods(ms, c@).unwrap();
                    Some((t.0, t.1, ms.update(i, (c@, ms[i].1 + ls))))
                },
            }
        },
        _ => Some(t),
    }
}

/// The tables after the items, in order, modules included; `None` where the
/// run stops on an error.
pub open spec fn walk<F: ClassDiagramFormater>(
    fmt: F,
    suffix: Seq<char>,
    flag: Seq<char>,
    items: Seq<Item>,
    t: TablesModel,
) -> Option<TablesModel>
    decreases items,
    via walk_decreases::<F>
{
    if items.len() == 0 {
        Some(t)
    } else {
        match walk(fmt, suffix, flag, items.subrange(0, items.len() - 1), t) {
            None => None,
            Some(t1) => match items[items.len() - 1] {
                Item::Struct(s) => struct_step(fmt, suffix, flag, s, t1),
                Item::Impl(b) => impl_step(fmt, b, t1),
                Item::Mod(Some(v)) => walk(fmt, suffix, flag, v@, t1),
                _ => Some(t1),
            },
        }
    }
}

#[via_fn]
proof fn walk_decreases<F: ClassDiagramFormater>(
    fmt: F,
    suffix: Seq<char>,
    flag: Seq<char>,
    items: Seq<Item>,
    t: TablesModel,
) {
    broadcast use vstd::seq::axiom_seq_subrange_decreases, vstd::seq::axiom_seq_index_decreases;
    broadcast use vstd::std_specs::vec::axiom_vec_decreases_to_view;

    if items.len() > 0 {
        let last = items[items.len() - 1];
        assert(decreases_to!(items => items.subrange(0, items.len() - 1)));
        assert(decreases_to!(items => last));
        match last {
            Item::Mod(Some(v)) => {
                assert(decreases_to!(v => v@));
                assert(decreases_to!(items => v@));
            },
            _ => {},
        }
    }
}

proof fn lemma_find_class(cs: ClassModel, name: Seq<char>)
    ensures
        find_class(cs, name) matches Some(i) ==> 0 <= i < cs.len() && cs[i].0 == name,
    decreases cs.len(),
{
    if cs.len() > 0 && cs.last().0 != name {
        lemma_find_class(cs.drop_last(), name);
    }
}

proof fn lemma_find_methods(ms: MethodModel, name: Seq<char>)
    ensures
        find_methods(ms, name) matches Some(i) ==> 0 <= i < ms.len() && ms[i].0 == name,
    decreases ms.len(),
{
    if ms.len() > 0 && ms.last().0 != name {
        lemma_find_methods(ms.drop_last(), name);
    }
}

/// Whether `name` ends with `suffix`.
pub fn ends_with_text(name: &str, suffix: &str) -> (r: bool)
    ensures
        r == ends_with(name@, suffix@),
{
    let n = name.unicode_len();
    let m = suffix.unicode_len();
    if m > n {
        return false;
    }
    let off = n - m;
    let mut i: usize = 0;
    while i < m
        invariant
            n == name@.len(),
            m == suffix@.len(),
            off == n - m,
            i <= m,
            forall|j: int| 0 <= j < i ==> name@[off + j] == suffix@[j],
        decreases m - i,
    {
        if name.get_char(off + i) != suffix.get_char(i) {
            assert(name@.subrange(off as int, n as int)[i as int] != suffix@[i as int]);
            return false;
        }
        i = i + 1;
    }
    assert(name@.subrange(off as int, n as int) =~= suffix@);
    true
}

/// Whether one of the attributes is the single identifier `flag`.
pub fn has_flag_attr(attrs: &Vec<Attribute>, flag: &String) -> (r: bool)
    ensures
        r == has_attr(attrs@, flag@),
{
    let mut i: usize = 0;
    while i < attrs.len()
        invariant
            i <= attrs@.len(),
            forall|j: int| 0 <= j < i ==> !names_attr(#[trigger] attrs@[j], flag@),
        decreases attrs@.len() - i,
    {
        let hit = match &attrs[i].ident {
            Some(n) => *n == *flag,
            None => false,
        };
        if hit {
            assert(names_attr(attrs@[i as int], flag@));
            return true;
        }
        i = i + 1;
    }
    false
}

/// The position of the class named `name`.
pub fn find_class_index(classes: &Vec<ClassEntry>, name: &String) -> (r: Option<usize>)
    ensures
        match r {
            Some(i) => find_class(class_model(classes@), name@) == Some(i as int) && i
                < classes@.len(),
            None => find_class(class_model(classes@), name@) is None,
        },
{
    proof {
        lemma_find_class(class_model(classes@), name@);
    }
    let mut k: usize = classes.len();
    assert(classes@.subrange(0, k as int) =~= classes@);
    while k > 0
        invariant
            k <= classes@.len(),
            find_class(class_model(classes@), name@) == find_class(
                class_model(classes@.subrange(0, k as int)),
                name@,
            ),
        decreases k,
    {
        assert(class_model(classes@.subrange(0, k as int)).drop_last() =~= class_model(
            classes@.subrange(0, k - 1),
        ));
        if classes[k - 1].name == *name {
            return Some(k - 1);
        }
        k = k - 1;
    }
    None
}

/// The position of the method lines of the class named `name`.
pub fn find_methods_index(methods: &Vec<MethodEntry>, name: &String) -> (r: Option<usize>)
    ensures
        match r {
            Some(i) => find_methods(method_model(methods@), name@) == Some(i as int) && i
                < methods@.len(),
            None => find_methods(method_model(methods@), name@) is None,
        },
{
    proof {
        lemma_find_methods(method_model(methods@), name@);
    }
    let mut k: usize = methods.len();
    assert(methods@.subrange(0, k as int) =~= methods@);
    while k > 0
        invariant
            k <= methods@.len(),
            find_methods(method_model(methods@), name@) == find_methods(
                method_model(methods@.subrange(0, k as int)),
                name@,
            ),
        decreases k,
    {
        assert(method_model(methods@.subrange(0, k as int)).drop_last() =~= method_model(
            methods@.subrange(0, k - 1),
        ));
        if methods[k - 1].class == *name {
            return Some(k - 1);
        }
        k = k - 1;
    }
    None
}

/// Adds a struct to the tables where it qualifies.
pub fn add_struct<F: ClassDiagramFormater>(
    s: &ItemStruct,
    suffix: &String,
    flag: &String,
    fmt: &F,
    tables: &mut Tables,
) -> (r: Result<(), ErdError>)
    ensures
        match r {
            Ok(_) => struct_step(*fmt, suffix@, flag@, *s, tables_model(*old(tables))) == Some(
                tables_model(*final(tables)),
            ),
            Err(_) => struct_step(*fmt, suffix@, flag@, *s, tables_model(*old(tables))) is None,
        },
{
    let q = has_flag_attr(&s.attrs, flag) || ends_with_text(s.ident.as_str(), suffix.as_str())
        || suffix.unicode_len() == 0;
    if !q {
        return Ok(());
    }
    let ghost cs0 = class_model(tables.classes@);
    let idx = match find_class_index(&tables.classes, &s.ident) {
        Some(k) => k,
        None => {
            let ghost before = tables.classes@;
            assert(texts(Seq::<String>::empty()) =~= Seq::<Seq<char>>::empty());
            tables.classes.push(
                ClassEntry { name: s.ident.clone(), vis: Vis::Private, lines: Vec::new() },
            );
            assert(class_model(tables.classes@) =~= class_model(before).push(
                (s.ident@, Vis::Private, Seq::empty()),
            ));
            tables.classes.len() - 1
        },
    };
    let ghost cs = class_model(tables.classes@);
    assert(find_class(cs, s.ident@) == Some(idx as int));
    match parse_fields(s, fmt, &mut tables.relations) {
        Err(e) => Err(e),
        Ok((vis, lines)) => {
            let mut lines = lines;
            let ghost added = texts(lines@);
            let ghost before = tables.classes@;
            let mut entry = tables.classes.remove(idx);
            entry.vis = vis;
            let ghost old_lines = entry.lines@;
            entry.lines.append(&mut lines);
            assert(texts(entry.lines@) =~= texts(old_lines) + added);
            tables.classes.insert(idx, entry);
            assert(tables.classes@ =~= before.update(idx as int, entry));
            proof {
                lemma_find_class(cs, s.ident@);
            }
            assert(class_model(tables.classes@) =~= cs.update(
                idx as int,
                (s.ident@, vis, cs[idx as int].2 + added),
            ));
            Ok(())
        },
    }
}

/// Adds the methods of an implementation block to the tables.
pub fn add_impl<F: ClassDiagramFormater>(b: &ItemImpl, fmt: &F, tables: &mut Tables) -> (r: Result<
    (),
    ErdError,
>)
    ensures
        match r {
            Ok(_) => impl_step(*fmt, *b, tables_model(*old(tables))) == Some(
                tables_model(*final(tables)),
            ),
            Err(_) => impl_step(*fmt, *b, tables_model(*old(tables))) is None,
        },
{
    match &b.self_ty {
        Type::Path(c) => {
            let idx = match find_methods_index(&tables.methods, c) {
                Some(k) => k,
                None => {
                    let ghost before = tables.methods@;
                    assert(texts(Seq::<String>::empty()) =~= Seq::<Seq<char>>::empty());
                    tables.methods.push(MethodEntry { class: c.clone(), lines: Vec::new() });
                    assert(method_model(tables.methods@) =~= method_model(before).push(
                        (c@, Seq::empty()),
                    ));
                    tables.methods.len() - 1
                },
            };
            let ghost ms = method_model(tables.methods@);
            let clazz_vis = match find_class_index(&tables.classes, c) {
                Some(k) => tables.classes[k].vis,
                None => Vis::Private,
            };
            match parse_impl(b, c, clazz_vis, fmt) {
                Err(e) => Err(e),
                Ok(lines) => {
                    let mut lines = lines;
                    let ghost added = texts(lines@);
                    let ghost before = tables.methods@;
                    let mut entry = tables.methods.remove(idx);
                    let ghost old_lines = entry.lines@;
                    entry.lines.append(&mut lines);
                    assert(texts(entry.lines@) =~= texts(old_lines) + added);
                    tables.methods.insert(idx, entry);
                    assert(tables.methods@ =~= before.update(idx as int, entry));
                    proof {
                        lemma_find_methods(ms, c@);
                    }
                    assert(method_model(tables.methods@) =~= ms.update(
                        idx as int,
                        (c@, ms[idx as int].1 + added),
                    ));
                    Ok(())
                },
            }
        },
        _ => Ok(()),
    }
}

/// Walks the items in order, into inline modules, and fills the tables:
/// qualifying structs become classes and relations, implementation blocks
/// become methods.
pub fn parse_items<F: ClassDiagramFormater>(
    items: &Vec<Item>,
    args: &Args,
    fmt: &F,
    tables: &mut Tables,
) -> (r: Result<(), ErdError>)
    ensures
        match r {
            Ok(_) => walk(
                *fmt,
                args.suffix@,
                lowercase_of(args.suffix@),
                items@,
                tables_model(*old(tables)),
            ) == Some(tables_model(*final(tables))),
            Err(_) => walk(
                *fmt,
                args.suffix@,
                lowercase_of(args.suffix@),
                items@,
                tables_model(*old(tables)),
            ) is None,
        },
    decreases items,
{
    let flag = lowercase(args.suffix.as_str());
    let ghost suffix = args.suffix@;
    let ghost t0 = tables_model(*tables);
    let mut i: usize = 0;
    while i < items.len()
        invariant
            i <= items@.len(),
            flag@ == lowercase_of(suffix),
            suffix == args.suffix@,
            t0 == tables_model(*old(tables)),
            walk(*fmt, suffix, flag@, items@.subrange(0, i as int), t0) == Some(
                tables_model(*tables),
            ),
        decreases items@.len() - i,
    {
        let ghost sub = items@.subrange(0, i + 1);
        assert(sub.subrange(0, i as int) =~= items@.subrange(0, i as int));
        let step = match &items[i] {
            Item::Struct(s) => add_struct(s, &args.suffix, &flag, fmt, tables),
            Item::Impl(b) => add_impl(b, fmt, tables),
            Item::Mod(Some(v)) => {
                proof {
                    broadcast use vstd::std_specs::vec::axiom_vec_index_decreases;

                    assert(decreases_to!(items => items[i as int]));
                }
                parse_items(v, args, fmt, tables)
            },
            _ => Ok(()),
        };
        match step {
            Err(e) => {
                proof {
                    lemma_walk_prefix_none(*fmt, suffix, flag@, items@, t0, i + 1);
                }
                return Err(e);
            },
            Ok(_) => {},
        }
        i = i + 1;
    }
    assert(items@.subrange(0, i as int) =~= items@);
    Ok(())
}

proof fn lemma_walk_prefix_none<F: ClassDiagramFormater>(
    fmt: F,
    suffix: Seq<char>,
    flag: Seq<char>,
    items: Seq<Item>,
    t: TablesModel,
    n: int,
)
    requires
        0 <= n <= items.len(),
        walk(fmt, suffix, flag, items.subrange(0, n), t) is None,
    ensures
        walk(fmt, suffix, flag, items, t) is None,
    decreases items.len() - n,
{
    if n < items.len() {
        assert(items.subrange(0, n + 1).subrange(0, n) =~= items.subrange(0, n));
        lemma_walk_prefix_none(fmt, suffix, flag, items, t, n + 1);
    } else {
        assert(items.subrange(0, n) =~= items);
    }
}

/// The front matter of the document.
pub open spec fn header_lines(title: Seq<char>) -> Seq<Seq<char>> {
    seq!["---"@, "title: "@ + title, "---"@, "classDiagram"@]
}

/// The method lines of class `c`.
pub open spec fn methods_of(ms: MethodModel, c: Seq<char>) -> Seq<Seq<char>> {
    match find_methods(ms, c) {
        Some(i) => ms[i].1,
        None => Seq::empty(),
    }
}

/// Each class's block followed by its method lines, in table order.
pub open spec fn class_blocks(cs: ClassModel, ms: MethodModel) -> Seq<Seq<char>>
    decreases cs.len(),
{
    if cs.len() == 0 {
        Seq::empty()
    } else {
        class_blocks(cs.drop_last(), ms) + cs.last().2 + methods_of(ms, cs.last().0)
    }
}

/// The lines of the document: front matter, every relation line, then the
/// classes. Relations come in the order they were found, classes in the
/// order they were first declared, so the output is the same on every run.
pub open spec fn document_lines(title: Seq<char>, t: TablesModel) -> Seq<Seq<char>> {
    header_lines(title) + t.1.map_values(|e: (Seq<char>, Seq<char>, Seq<char>)| e.2)
        + class_blocks(t.0, t.2)
}

/// The lines with a line break between each two.
pub open spec fn join_lines(ls: Seq<Seq<char>>) -> Seq<char>
    decreases ls.len(),
{
    if ls.len() == 0 {
        Seq::empty()
    } else if ls.len() == 1 {
        ls[0]
    } else {
        join_lines(ls.drop_last()) + "\n"@ + ls.last()
    }
}

/// The document; `embed` wraps it in a fenced Mermaid block for Markdown.
pub open spec fn document(title: Seq<char>, t: TablesModel, embed: bool) -> Seq<char> {
    if embed {
        "```mermaid\n"@ + join_lines(document_lines(title, t)) + "\n```"@
    } else {
        join_lines(document_lines(title, t))
    }
}

fn push_all(out: &mut Vec<String>, ls: &Vec<String>)
    ensures
        texts(final(out)@) == texts(old(out)@) + texts(ls@),
{
    let ghost start = texts(out@);
    let mut i: usize = 0;
    while i < ls.len()
        invariant
            i <= ls@.len(),
            texts(out@) == start + texts(ls@.subrange(0, i as int)),
        decreases ls@.len() - i,
    {
        let ghost before = out@;
        out.push(ls[i].clone());
        assert(texts(out@) =~= texts(before).push(ls@[i as int]@));
        assert(texts(ls@.subrange(0, i + 1)) =~= texts(ls@.subrange(0, i as int)).push(
            ls@[i as int]@,
        ));
        i = i + 1;
    }
    assert(ls@.subrange(0, i as int) =~= ls@);
}

/// Joins the lines with line breaks.
pub fn join_text(ls: &Vec<String>) -> (r: String)
    ensures
        r@ == join_lines(texts(ls@)),
{
    let mut r = String::new();
    let mut i: usize = 0;
    while i < ls.len()
        invariant
            i <= ls@.len(),
            r@ == join_lines(texts(ls@.subrange(0, i as int))),
        decreases ls@.len() - i,
    {
        if i > 0 {
            r.append("\n");
        }
        r.append(ls[i].as_str());
        assert(texts(ls@.subrange(0, i + 1)).drop_last() =~= texts(ls@.subrange(0, i as int)));
        i = i + 1;
    }
    assert(ls@.subrange(0, i as int) =~= ls@);
    r
}

/// The lines of the document.
pub fn render_lines(title: &String, tables: &Tables) -> (r: Vec<String>)
    ensures
        texts(r@) == document_lines(title@, tables_model(*tables)),
{
    let mut out: Vec<String> = Vec::new();
    out.push("---".to_owned());
    let mut t = "title: ".to_owned();
    t.append(title.as_str());
    out.push(t);
    out.push("---".to_owned());
    out.push("classDiagram".to_owned());
    assert(texts(out@) =~= header_lines(title@));
    let ghost rm = rel_model(tables.relations@).map_values(
        |e: (Seq<char>, Seq<char>, Seq<char>)| e.2,
    );
    let mut i: usize = 0;
    while i < tables.relations.len()
        invariant
            i <= tables.relations@.len(),
            rm == rel_model(tables.relations@).map_values(
                |e: (Seq<char>, Seq<char>, Seq<char>)| e.2,
            ),
            texts(out@) == header_lines(title@) + rm.subrange(0, i as int),
        decreases tables.relations@.len() - i,
    {
        let ghost before = out@;
        out.push(tables.relations[i].line.clone());
        assert(texts(out@) =~= texts(before).push(rm[i as int]));
        assert(rm.subrange(0, i + 1) =~= rm.subrange(0, i as int).push(rm[i as int]));
        i = i + 1;
    }
    assert(rm.subrange(0, i as int) =~= rm);
    let ghost cs = class_model(tables.classes@);
    let ghost ms = method_model(tables.methods@);
    let ghost head = texts(out@);
    let mut k: usize = 0;
    while k < tables.classes.len()
        invariant
            k <= tables.classes@.len(),
            cs == class_model(tables.classes@),
            ms == method_model(tables.methods@),
            texts(out@) == head + class_blocks(cs.subrange(0, k as int), ms),
        decreases tables.classes@.len() - k,
    {
        let ghost before = texts(out@);
        let c = &tables.classes[k];
        push_all(&mut out, &c.lines);
        match find_methods_index(&tables.methods, &c.name) {
            Some(m) => {
                push_all(&mut out, &tables.methods[m].lines);
            },
            None => {},
        }
        assert(cs.subrange(0, k + 1).drop_last() =~= cs.subrange(0, k as int));
        assert(texts(out@) =~= before + cs[k as int].2 + methods_of(ms, cs[k as int].0));
        k = k + 1;
    }
    assert(cs.subrange(0, k as int) =~= cs);
    out
}

/// The document text; `embed` wraps it in a fenced Mermaid block.
pub fn render_document(title: &String, tables: &Tables, embed: bool) -> (r: String)
    ensures
        r@ == document(title@, tables_model(*tables), embed),
{
    let body = join_text(&render_lines(title, tables));
    if embed {
        let mut r = "```mermaid\n".to_owned();
        r.append(body.as_str());
        r.append("\n```");
        r
    } else {
        body
    }
}

/// The diagram of the items: walks them from empty tables and renders the
/// document, or stops on the first error.
pub fn generate<F: ClassDiagramFormater>(
    items: &Vec<Item>,
    args: &Args,
    fmt: &F,
    embed: bool,
) -> (r: Result<String, ErdError>)
    ensures
        match walk(
            *fmt,
            args.suffix@,
            lowercase_of(args.suffix@),
            items@,
            (ClassModel::empty(), RelModel::empty(), MethodModel::empty()),
        ) {
            Some(t) => r matches Ok(s) && s@ == document(args.title@, t, embed),
            None => r is Err,
        },
{
    let mut tables = Tables::new();
    match parse_items(items, args, fmt, &mut tables) {
        Ok(_) => Ok(render_document(&args.title, &tables, embed)),
        Err(e) => Err(e),
    }
}

} // verus!
