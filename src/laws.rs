//! Properties of the extraction that hold for all inputs.
use vstd::prelude::*;

use crate::extract::{
    edge, field_step, fields_run, has_key, impl_step, insert_edge, keys_unique, method_line,
    return_text, struct_result, walk, ClassModel, MethodModel, RelModel, TablesModel,
};
use crate::formaters::{ClassDiagramFormater, Vis};
use crate::syntax::{Field, Item, ItemImpl, ItemStruct, PtrKind, Signature, Type, Visibility};
use crate::text::text_lt;

verus! {

proof fn lemma_text_lt_asymmetric(a: Seq<char>, b: Seq<char>)
    ensures
        text_lt(a, b) ==> !text_lt(b, a),
    decreases a.len(),
{
    if a.len() > 0 && b.len() > 0 && a[0] == b[0] {
        lemma_text_lt_asymmetric(a.drop_first(), b.drop_first());
    }
}

proof fn lemma_text_lt_total(a: Seq<char>, b: Seq<char>)
    ensures
        a != b ==> text_lt(a, b) || text_lt(b, a),
    decreases a.len(),
{
    if a.len() > 0 && b.len() > 0 && a[0] == b[0] {
        lemma_text_lt_total(a.drop_first(), b.drop_first());
        if a.drop_first() == b.drop_first() {
            assert(a =~= seq![a[0]] + a.drop_first());
            assert(b =~= seq![b[0]] + b.drop_first());
        }
    } else if a.len() == 0 && b.len() == 0 {
        assert(a =~= b);
    }
}

proof fn lemma_insert_edge_unique(rels: RelModel, e: (Seq<char>, Seq<char>, Seq<char>))
    requires
        keys_unique(rels),
    ensures
        keys_unique(insert_edge(rels, e)),
        has_key(insert_edge(rels, e), e.0, e.1),
{
    if !has_key(rels, e.0, e.1) {
        let r = rels.push(e);
        assert(r[rels.len() as int] == e);
    }
}

/// Canonical relations: the same annotation on either class of a pair gives
/// the same edge, with the cardinality beside the name that sorts second and
/// the first side blank; annotations on either class share one key, whose
/// names are in order when the classes differ;
/// added to a table without repeated keys, in either order, the table holds
/// that key exactly once.
pub proof fn relation_key_symmetric<F: ClassDiagramFormater>(
    fmt: F,
    a: Seq<char>,
    b: Seq<char>,
    card_a: Seq<char>,
    label_a: Seq<char>,
    card_b: Seq<char>,
    label_b: Seq<char>,
    rels: RelModel,
)
    requires
        keys_unique(rels),
    ensures
        edge(fmt, a, b, card_a, label_a) == edge(fmt, b, a, card_a, label_a),
        text_lt(a, b) ==> edge(fmt, a, b, card_a, label_a) == (
            a,
            b,
            fmt.link_text(a, Seq::empty(), b, card_a, label_a),
        ),
        edge(fmt, a, b, card_a, label_a).0 == edge(fmt, b, a, card_b, label_b).0,
        edge(fmt, a, b, card_a, label_a).1 == edge(fmt, b, a, card_b, label_b).1,
        a != b ==> text_lt(edge(fmt, a, b, card_a, label_a).0, edge(fmt, a, b, card_a, label_a).1),
        keys_unique(
            insert_edge(insert_edge(rels, edge(fmt, a, b, card_a, label_a)), edge(fmt, b, a, card_b, label_b)),
        ),
        has_key(
            insert_edge(insert_edge(rels, edge(fmt, a, b, card_a, label_a)), edge(fmt, b, a, card_b, label_b)),
            edge(fmt, a, b, card_a, label_a).0,
            edge(fmt, a, b, card_a, label_a).1,
        ),
{
    lemma_text_lt_asymmetric(a, b);
    lemma_text_lt_total(a, b);
    let ea = edge(fmt, a, b, card_a, label_a);
    let eb = edge(fmt, b, a, card_b, label_b);
    lemma_insert_edge_unique(rels, ea);
    lemma_insert_edge_unique(insert_edge(rels, ea), eb);
}

/// First write wins: once a key holds an edge, a later edge for the same key
/// leaves the table as it was.
pub proof fn first_relation_kept(
    rels: RelModel,
    first: (Seq<char>, Seq<char>, Seq<char>),
    second: (Seq<char>, Seq<char>, Seq<char>),
)
    requires
        first.0 == second.0,
        first.1 == second.1,
    ensures
        insert_edge(insert_edge(rels, first), second) == insert_edge(rels, first),
        !has_key(rels, first.0, first.1) ==> insert_edge(insert_edge(rels, first), second)
            == rels.push(first),
{
    let r = insert_edge(rels, first);
    if !has_key(rels, first.0, first.1) {
        assert(r[rels.len() as int] == first);
    }
    assert(has_key(r, second.0, second.1));
}

/// A field whose type is not a plain path adds no line and no relation,
/// and does not stop the run.
pub proof fn unsupported_field_skipped<F: ClassDiagramFormater>(
    fmt: F,
    clazz: Seq<char>,
    f: Field,
    i: nat,
    lines: Seq<Seq<char>>,
    rels: RelModel,
)
    requires
        !(f.ty is Path),
    ensures
        field_step(fmt, clazz, f, i, lines, rels) == Some((lines, rels)),
{
}

/// An implementation block whose target is not a plain path adds no method
/// and does not stop the run.
pub proof fn unsupported_impl_skipped<F: ClassDiagramFormater>(
    fmt: F,
    b: ItemImpl,
    t: TablesModel,
)
    requires
        !(b.self_ty is Path),
    ensures
        impl_step(fmt, b, t) == Some(t),
{
}

/// The text of a path name as a return type of `clazz`'s methods.
pub open spec fn path_text(n: Seq<char>, clazz: Seq<char>) -> Seq<char> {
    if n == "Self"@ {
        clazz
    } else {
        n
    }
}

/// Return types: a reference to a path has one reference marker before the
/// name; a pointer to a path, `*const ` whether it is constant or mutable;
/// an array of a literal length `[name; len]`; an array of any other length
/// has no text, so a method that returns it stops the run.
pub proof fn return_type_shapes<F: ClassDiagramFormater>(
    fmt: F,
    n: String,
    len: String,
    elem: Type,
    clazz: Seq<char>,
    vis: Visibility,
    inherit: Vis,
    sig: Signature,
)
    ensures
        return_text(Type::Reference(Box::new(Type::Path(n))), clazz) == Some(
            "&"@ + path_text(n@, clazz),
        ),
        return_text(Type::Ptr(PtrKind::Const, Box::new(Type::Path(n))), clazz) == Some(
            "*const "@ + path_text(n@, clazz),
        ),
        return_text(Type::Ptr(PtrKind::Mut, Box::new(Type::Path(n))), clazz) == Some(
            "*const "@ + path_text(n@, clazz),
        ),
        return_text(Type::Array(Box::new(Type::Path(n)), Some(len)), clazz) == Some(
            "["@ + path_text(n@, clazz) + "; "@ + len@ + "]"@,
        ),
        return_text(Type::Array(Box::new(elem), None), clazz) is None,
        sig.output == Some(Type::Array(Box::new(elem), None)) ==> method_line(
            fmt,
            clazz,
            inherit,
            vis,
            sig,
        ) is None,
{
    assert(return_text(Type::Path(n), clazz) == Some(path_text(n@, clazz)));
}

/// A key names its two classes in order (or one class twice).
pub open spec fn canonical_key(a: Seq<char>, b: Seq<char>) -> bool {
    a == b || text_lt(a, b)
}

/// Every key of the table is canonical and no key repeats.
pub open spec fn relations_canonical(rels: RelModel) -> bool {
    keys_unique(rels) && forall|i: int| 0 <= i < rels.len() ==> canonical_key(#[trigger] rels[i].0, rels[i].1)
}

/// Edges `i` and `j` join the same two classes, in either order.
pub open spec fn same_pair(rels: RelModel, i: int, j: int) -> bool {
    (rels[i].0 == rels[j].0 && rels[i].1 == rels[j].1) || (rels[i].0 == rels[j].1 && rels[i].1
        == rels[j].0)
}

proof fn lemma_edge_canonical<F: ClassDiagramFormater>(
    fmt: F,
    clazz: Seq<char>,
    ty: Seq<char>,
    card: Seq<char>,
    label: Seq<char>,
)
    ensures
        canonical_key(edge(fmt, clazz, ty, card, label).0, edge(fmt, clazz, ty, card, label).1),
{
    lemma_text_lt_total(clazz, ty);
}

proof fn lemma_insert_edge_canonical(rels: RelModel, e: (Seq<char>, Seq<char>, Seq<char>))
    requires
        relations_canonical(rels),
        canonical_key(e.0, e.1),
    ensures
        relations_canonical(insert_edge(rels, e)),
{
    lemma_insert_edge_unique(rels, e);
    let r = insert_edge(rels, e);
    assert forall|i: int| 0 <= i < r.len() implies canonical_key(#[trigger] r[i].0, r[i].1) by {
        if i < rels.len() {
            assert(r[i] == rels[i]);
        }
    }
}

proof fn lemma_fields_run_canonical<F: ClassDiagramFormater>(
    fmt: F,
    clazz: Seq<char>,
    fields: Seq<Field>,
    lines: Seq<Seq<char>>,
    rels: RelModel,
)
    requires
        relations_canonical(rels),
    ensures
        fields_run(fmt, clazz, fields, lines, rels) matches Some(acc) ==> relations_canonical(acc.1),
    decreases fields.len(),
{
    if fields.len() > 0 {
        lemma_fields_run_canonical(fmt, clazz, fields.drop_last(), lines, rels);
        match fields_run(fmt, clazz, fields.drop_last(), lines, rels) {
            Some(acc) => {
                let f = fields.last();
                match f.ty {
                    Type::Path(t) => {
                        lemma_edge_canonical(fmt, clazz, t@, Seq::empty(), Seq::empty());
                        assert forall|card: Seq<char>, label: Seq<char>|
                            relations_canonical(
                                #[trigger] insert_edge(acc.1, edge(fmt, clazz, t@, card, label)),
                            ) by {
                            lemma_edge_canonical(fmt, clazz, t@, card, label);
                            lemma_insert_edge_canonical(acc.1, edge(fmt, clazz, t@, card, label));
                        }
                    },
                    _ => {},
                }
            },
            None => {},
        }
    }
}

proof fn lemma_walk_canonical<F: ClassDiagramFormater>(
    fmt: F,
    suffix: Seq<char>,
    flag: Seq<char>,
    items: Seq<Item>,
    t: TablesModel,
)
    requires
        relations_canonical(t.1),
    ensures
        walk(fmt, suffix, flag, items, t) matches Some(t2) ==> relations_canonical(t2.1),
    decreases items,
{
    broadcast use vstd::seq::axiom_seq_subrange_decreases, vstd::seq::axiom_seq_index_decreases;
    broadcast use vstd::std_specs::vec::axiom_vec_decreases_to_view;

    if items.len() > 0 {
        let prefix = items.subrange(0, items.len() - 1);
        assert(decreases_to!(items => prefix));
        lemma_walk_canonical(fmt, suffix, flag, prefix, t);
        match walk(fmt, suffix, flag, prefix, t) {
            Some(t1) => {
                let last = items[items.len() - 1];
                assert(decreases_to!(items => last));
                match last {
                    Item::Struct(s) => {
                        lemma_fields_run_canonical(
                            fmt,
                            s.ident@,
                            s.fields@,
                            seq![fmt.class_text(s.ident@)],
                            t1.1,
                        );
                    },
                    Item::Mod(Some(v)) => {
                        assert(decreases_to!(v => v@));
                        assert(decreases_to!(items => v@));
                        lemma_walk_canonical(fmt, suffix, flag, v@, t1);
                    },
                    _ => {},
                }
            },
            None => {},
        }
    }
}

/// One edge per pair: after any walk from empty tables, every relation key
/// names its classes in order, and no two edges join the same two classes,
/// whichever of them declared it.
pub proof fn one_edge_per_pair<F: ClassDiagramFormater>(
    fmt: F,
    suffix: Seq<char>,
    flag: Seq<char>,
    items: Seq<Item>,
)
    ensures
        walk(fmt, suffix, flag, items, (ClassModel::empty(), RelModel::empty(), MethodModel::empty()))
            matches Some(t) ==> relations_canonical(t.1) && forall|i: int, j: int|
            0 <= i < t.1.len() && 0 <= j < t.1.len() && #[trigger] same_pair(t.1, i, j) ==> i
                == j,
{
    lemma_walk_canonical(
        fmt,
        suffix,
        flag,
        items,
        (ClassModel::empty(), RelModel::empty(), MethodModel::empty()),
    );
    match walk(
        fmt,
        suffix,
        flag,
        items,
        (ClassModel::empty(), RelModel::empty(), MethodModel::empty()),
    ) {
        Some(t) => {
            let r = t.1;
            assert forall|i: int, j: int|
                0 <= i < r.len() && 0 <= j < r.len() && #[trigger] same_pair(r, i, j) implies i
                == j by {
                if !(r[i].0 == r[j].0 && r[i].1 == r[j].1) {
                    assert(canonical_key(r[i].0, r[i].1));
                    assert(canonical_key(r[j].0, r[j].1));
                    lemma_text_lt_asymmetric(r[i].0, r[i].1);
                }
            }
        },
        None => {},
    }
}

proof fn lemma_fields_run_keeps<F: ClassDiagramFormater>(
    fmt: F,
    clazz: Seq<char>,
    fields: Seq<Field>,
    lines: Seq<Seq<char>>,
    rels: RelModel,
)
    ensures
        fields_run(fmt, clazz, fields, lines, rels) matches Some(acc) ==> rels.len() <= acc.1.len()
            && acc.1.subrange(0, rels.len() as int) == rels,
    decreases fields.len(),
{
    if fields.len() > 0 {
        lemma_fields_run_keeps(fmt, clazz, fields.drop_last(), lines, rels);
        match fields_run(fmt, clazz, fields.drop_last(), lines, rels) {
            Some(acc) => {
                assert forall|e: (Seq<char>, Seq<char>, Seq<char>)|
                    #[trigger] insert_edge(acc.1, e).subrange(0, rels.len() as int) == rels
                        && rels.len() <= insert_edge(acc.1, e).len() by {
                    assert(insert_edge(acc.1, e).subrange(0, rels.len() as int) =~= acc.1.subrange(
                        0,
                        rels.len() as int,
                    ));
                }
            },
            None => {},
        }
    }
}

proof fn lemma_walk_keeps<F: ClassDiagramFormater>(
    fmt: F,
    suffix: Seq<char>,
    flag: Seq<char>,
    items: Seq<Item>,
    t: TablesModel,
)
    ensures
        walk(fmt, suffix, flag, items, t) matches Some(t2) ==> t.1.len() <= t2.1.len()
            && t2.1.subrange(0, t.1.len() as int) == t.1,
    decreases items,
{
    broadcast use vstd::seq::axiom_seq_subrange_decreases, vstd::seq::axiom_seq_index_decreases;
    broadcast use vstd::std_specs::vec::axiom_vec_decreases_to_view;

    if items.len() > 0 {
        let prefix = items.subrange(0, items.len() - 1);
        assert(decreases_to!(items => prefix));
        lemma_walk_keeps(fmt, suffix, flag, prefix, t);
        match walk(fmt, suffix, flag, prefix, t) {
            Some(t1) => {
                let last = items[items.len() - 1];
                assert(decreases_to!(items => last));
                match last {
                    Item::Struct(s) => {
                        lemma_fields_run_keeps(
                            fmt,
                            s.ident@,
                            s.fields@,
                            seq![fmt.class_text(s.ident@)],
                            t1.1,
                        );
                        match walk(fmt, suffix, flag, items, t) {
                            Some(t2) => {
                                assert(t2.1.subrange(0, t.1.len() as int) =~= t2.1.subrange(
                                    0,
                                    t1.1.len() as int,
                                ).subrange(0, t.1.len() as int));
                            },
                            None => {},
                        }
                    },
                    Item::Mod(Some(v)) => {
                        assert(decreases_to!(v => v@));
                        assert(decreases_to!(items => v@));
                        lemma_walk_keeps(fmt, suffix, flag, v@, t1);
                        match walk(fmt, suffix, flag, items, t) {
                            Some(t2) => {
                                assert(t2.1.subrange(0, t.1.len() as int) =~= t2.1.subrange(
                                    0,
                                    t1.1.len() as int,
                                ).subrange(0, t.1.len() as int));
                            },
                            None => {},
                        }
                    },
                    _ => {},
                }
            },
            None => {},
        }
    }
}

/// First write wins over a whole walk: every edge already in the table
/// stays, at its place and with its line; a walk only adds edges after them.
pub proof fn existing_relations_kept<F: ClassDiagramFormater>(
    fmt: F,
    suffix: Seq<char>,
    flag: Seq<char>,
    items: Seq<Item>,
    t: TablesModel,
)
    ensures
        walk(fmt, suffix, flag, items, t) matches Some(t2) ==> t.1.len() <= t2.1.len()
            && t2.1.subrange(0, t.1.len() as int) == t.1,
{
    lemma_walk_keeps(fmt, suffix, flag, items, t);
}

proof fn lemma_fields_run_unsupported<F: ClassDiagramFormater>(
    fmt: F,
    clazz: Seq<char>,
    fields: Seq<Field>,
    lines: Seq<Seq<char>>,
    rels: RelModel,
)
    requires
        forall|k: int| 0 <= k < fields.len() ==> !(#[trigger] fields[k].ty is Path),
    ensures
        fields_run(fmt, clazz, fields, lines, rels) == Some((lines, rels)),
    decreases fields.len(),
{
    if fields.len() > 0 {
        assert(!(fields[fields.len() - 1].ty is Path));
        lemma_fields_run_unsupported(fmt, clazz, fields.drop_last(), lines, rels);
    }
}

/// A struct whose fields are none of them plain path types yields only its
/// header and terminator, adds no relation, and does not stop the run,
/// whatever its fields' documentation says.
pub proof fn unsupported_fields_skipped<F: ClassDiagramFormater>(
    fmt: F,
    s: ItemStruct,
    rels: RelModel,
)
    requires
        forall|k: int| 0 <= k < s.fields@.len() ==> !(#[trigger] s.fields@[k].ty is Path),
    ensures
        struct_result(fmt, s, rels) == Some(
            (
                crate::formaters::vis_of(s.vis, Vis::Private),
                seq![fmt.class_text(s.ident@), fmt.class_end_text()],
                rels,
            ),
        ),
{
    lemma_fields_run_unsupported(fmt, s.ident@, s.fields@, seq![fmt.class_text(s.ident@)], rels);
    assert(seq![fmt.class_text(s.ident@)].push(fmt.class_end_text()) =~= seq![
        fmt.class_text(s.ident@),
        fmt.class_end_text(),
    ]);
}

} // verus!
