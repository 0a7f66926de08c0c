use erd_rs::extract::{
    generate, parse_annotation, parse_fields, parse_impl, parse_items, parse_return_type,
    relation_entry, render_document, Args, ErdError, RelationEntry, Tables,
};
use erd_rs::formaters::{ClassDiagramFormater, MMDFormater, Vis};
use erd_rs::syntax::{
    Attribute, Field, FnArg, ImplItem, Item, ItemImpl, ItemStruct, PtrKind, Signature, Type,
    Visibility,
};
use erd_rs::text::{decimal_text, text_less};

fn s(x: &str) -> String {
    x.to_string()
}

fn path(n: &str) -> Type {
    Type::Path(s(n))
}

fn args(suffix: &str) -> Args {
    Args { suffix: s(suffix), dir: None, output: s("ER.mmd"), title: s("ER Diagram") }
}

fn field(name: &str, ty: Type) -> Field {
    Field { attrs: vec![], vis: Visibility::Inherited, ident: Some(s(name)), ty }
}

fn doc(text: &str) -> Attribute {
    Attribute { ident: Some(s("doc")), str_value: Some(s(text)) }
}

fn annotated(name: &str, ty: &str, text: &str) -> Field {
    Field { attrs: vec![doc(text)], vis: Visibility::Public, ident: Some(s(name)), ty: path(ty) }
}

fn strukt(name: &str, fields: Vec<Field>) -> Item {
    Item::Struct(ItemStruct { attrs: vec![], vis: Visibility::Public, ident: s(name), fields })
}

fn method(name: &str, vis: Visibility, inputs: Vec<FnArg>, output: Option<Type>) -> ImplItem {
    ImplItem::Fn(vis, Signature { ident: s(name), inputs, output })
}

fn inherent(target: Type, items: Vec<ImplItem>) -> Item {
    Item::Impl(ItemImpl { has_trait: false, self_ty: target, items })
}

fn lines(items: Vec<Item>, suffix: &str) -> Vec<String> {
    let out = generate(&items, &args(suffix), &MMDFormater(), false).unwrap();
    out.split('\n').map(|l| l.to_string()).collect()
}

#[test]
fn plain_field_class_block() {
    let items = vec![strukt("FooModel", vec![field("x", path("String"))])];
    let out = generate(&items, &args("Model"), &MMDFormater(), false).unwrap();
    assert_eq!(out, "---\ntitle: ER Diagram\n---\nclassDiagram\n class FooModel {\n  -String x\n }");
}

#[test]
fn relation_declared_on_first_class() {
    let items = vec![
        strukt("AModel", vec![annotated("b", "BModel", "`#[relation = 1..n : owns]`")]),
        strukt("BModel", vec![]),
    ];
    let l = lines(items, "Model");
    let rels: Vec<&String> = l.iter().filter(|x| x.contains(" -- ")).collect();
    assert_eq!(rels.len(), 1);
    assert_eq!(rels[0], " AModel \"\" -- \"1..n\" BModel : owns");
    assert_eq!(l[4], " AModel \"\" -- \"1..n\" BModel : owns");
}

#[test]
fn relation_declared_on_second_class() {
    let items = vec![
        strukt("BModel", vec![annotated("a", "AModel", "`#[relation = 1..n : owns]`")]),
        strukt("AModel", vec![]),
    ];
    let l = lines(items, "Model");
    assert_eq!(l[4], " AModel \"\" -- \"1..n\" BModel : owns");
    assert_eq!(l.iter().filter(|x| x.contains(" -- ")).count(), 1);
}

#[test]
fn same_annotation_on_either_side_gives_same_table() {
    let a = vec![
        strukt("AModel", vec![annotated("b", "BModel", "`#[relation = 1..n : owns]`")]),
        strukt("BModel", vec![]),
    ];
    let b = vec![
        strukt("AModel", vec![]),
        strukt("BModel", vec![annotated("a", "AModel", "`#[relation = 1..n : owns]`")]),
    ];
    let mut ta = Tables::new();
    let mut tb = Tables::new();
    parse_items(&a, &args("Model"), &MMDFormater(), &mut ta).unwrap();
    parse_items(&b, &args("Model"), &MMDFormater(), &mut tb).unwrap();
    assert_eq!(ta.relations.len(), 1);
    assert_eq!(tb.relations.len(), 1);
    let key = |t: &Tables| (t.relations[0].first.clone(), t.relations[0].second.clone(), t.relations[0].line.clone());
    assert_eq!(key(&ta), key(&tb));
    assert_eq!(key(&ta).2, " AModel \"\" -- \"1..n\" BModel : owns");
}

#[test]
fn relation_entry_orders_names() {
    let e = relation_entry(&MMDFormater(), &s("Zeta"), &s("Alpha"), s("0..1"), s("x"));
    assert_eq!((e.first.as_str(), e.second.as_str()), ("Alpha", "Zeta"));
    assert_eq!(e.line, " Alpha \"\" -- \"0..1\" Zeta : x");
    let e = relation_entry(&MMDFormater(), &s("Alpha"), &s("Zeta"), s("0..1"), s("x"));
    assert_eq!(e.line, " Alpha \"\" -- \"0..1\" Zeta : x");
}

#[test]
fn relation_declared_on_both_sides_is_one_edge() {
    let items = vec![
        strukt("AModel", vec![annotated("b", "BModel", "`#[relation = 1 : has]`")]),
        strukt("BModel", vec![annotated("a", "AModel", "`#[relation = n : belongs]`")]),
    ];
    let l = lines(items, "Model");
    let rels: Vec<&String> = l.iter().filter(|x| x.contains(" -- ")).collect();
    assert_eq!(rels, vec![" AModel \"\" -- \"1\" BModel : has"]);
}

#[test]
fn second_annotation_for_a_pair_is_dropped() {
    let item = ItemStruct {
        attrs: vec![],
        vis: Visibility::Public,
        ident: s("AModel"),
        fields: vec![
            annotated("b", "BModel", "`#[relation = 1 : first]`"),
            annotated("c", "BModel", "`#[relation = 2 : second]`"),
        ],
    };
    let mut rels: Vec<RelationEntry> = vec![];
    let (vis, block) = parse_fields(&item, &MMDFormater(), &mut rels).unwrap();
    assert_eq!(vis, Vis::Public);
    assert_eq!(block, vec![" class AModel {", "  +BModel b", "  +BModel c", " }"]);
    assert_eq!(rels.len(), 1);
    assert_eq!(rels[0].line, " AModel \"\" -- \"1\" BModel : first");
    assert_eq!((rels[0].first.as_str(), rels[0].second.as_str()), ("AModel", "BModel"));
}

#[test]
fn unsupported_field_type_is_skipped() {
    let item = ItemStruct {
        attrs: vec![],
        vis: Visibility::Inherited,
        ident: s("TupModel"),
        fields: vec![
            Field {
                attrs: vec![doc("`#[relation = 1 : r]`")],
                vis: Visibility::Inherited,
                ident: Some(s("r")),
                ty: Type::Reference(Box::new(path("BModel"))),
            },
            field("y", path("u32")),
        ],
    };
    let mut rels: Vec<RelationEntry> = vec![];
    let (vis, block) = parse_fields(&item, &MMDFormater(), &mut rels).unwrap();
    assert_eq!(vis, Vis::Private);
    assert_eq!(block, vec![" class TupModel {", "  -u32 y", " }"]);
    assert!(rels.is_empty());
}

#[test]
fn tuple_fields_are_named_by_position() {
    let f = |t: &str| Field { attrs: vec![], vis: Visibility::Inherited, ident: None, ty: path(t) };
    let item = ItemStruct {
        attrs: vec![],
        vis: Visibility::Inherited,
        ident: s("PairModel"),
        fields: vec![f("u8"), Field { ty: Type::Other, ..f("x") }, f("u16")],
    };
    let mut rels: Vec<RelationEntry> = vec![];
    let (_, block) = parse_fields(&item, &MMDFormater(), &mut rels).unwrap();
    assert_eq!(block, vec![" class PairModel {", "  -u8 0", "  -u16 2", " }"]);
}

#[test]
fn non_path_impl_target_gives_no_methods() {
    let items = vec![
        strukt("AModel", vec![]),
        inherent(
            Type::Reference(Box::new(path("AModel"))),
            vec![method("f", Visibility::Public, vec![], None)],
        ),
    ];
    let mut t = Tables::new();
    parse_items(&items, &args("Model"), &MMDFormater(), &mut t).unwrap();
    assert!(t.methods.is_empty());
    assert_eq!(lines(items, "Model").len(), 6);
}

#[test]
fn const_pointer_to_self_names_the_class() {
    let items = vec![
        strukt("Widget", vec![]),
        inherent(
            path("Widget"),
            vec![method(
                "raw",
                Visibility::Inherited,
                vec![],
                Some(Type::Ptr(PtrKind::Const, Box::new(path("Self")))),
            )],
        ),
    ];
    let l = lines(items, "");
    assert_eq!(l[l.len() - 1], " Widget: -raw() *const Widget");
}

#[test]
fn return_type_shapes() {
    assert_eq!(parse_return_type(&Type::Reference(Box::new(path("Foo"))), "W").unwrap(), "&Foo");
    assert_eq!(
        parse_return_type(&Type::Array(Box::new(path("Foo")), Some(s("3"))), "W").unwrap(),
        "[Foo; 3]"
    );
    assert_eq!(
        parse_return_type(&Type::Array(Box::new(path("Foo")), None), "W"),
        Err(ErdError::UnsupportedReturnType)
    );
    assert_eq!(
        parse_return_type(&Type::Ptr(PtrKind::Mut, Box::new(path("Self"))), "W").unwrap(),
        "*const W"
    );
    assert_eq!(parse_return_type(&Type::Ptr(PtrKind::Bare, Box::new(path("u8"))), "W").unwrap(), "*u8");
    assert_eq!(
        parse_return_type(&Type::Paren(Box::new(Type::Reference(Box::new(path("Self"))))), "W").unwrap(),
        "(&W)"
    );
    assert_eq!(parse_return_type(&path("SelfRef"), "W").unwrap(), "SelfRef");
    assert_eq!(parse_return_type(&Type::Other, "W"), Err(ErdError::UnsupportedReturnType));
}

#[test]
fn non_literal_array_return_fails_the_run() {
    let items = vec![
        strukt("AModel", vec![]),
        inherent(
            path("AModel"),
            vec![method("f", Visibility::Public, vec![], Some(Type::Array(Box::new(path("u8")), None)))],
        ),
    ];
    assert_eq!(
        generate(&items, &args("Model"), &MMDFormater(), false),
        Err(ErdError::UnsupportedReturnType)
    );
}

#[test]
fn method_visibility_and_parameters() {
    let block = ItemImpl {
        has_trait: false,
        self_ty: path("GeneModel"),
        items: vec![
            method(
                "new",
                Visibility::Public,
                vec![FnArg::Typed(Some(s("id")), path("u32")), FnArg::Typed(Some(s("name")), path("String"))],
                Some(path("Self")),
            ),
            method(
                "set_id",
                Visibility::Public,
                vec![FnArg::Receiver, FnArg::Typed(Some(s("id")), path("u32"))],
                None,
            ),
            method("summarized", Visibility::Restricted(Some(s("self"))), vec![FnArg::Receiver], Some(path("String"))),
            method("summarized2", Visibility::Restricted(Some(s("crate"))), vec![FnArg::Receiver], Some(path("String"))),
            method(
                "skip",
                Visibility::Inherited,
                vec![FnArg::Typed(None, path("u8")), FnArg::Typed(Some(s("r")), Type::Other)],
                None,
            ),
            ImplItem::Other,
        ],
    };
    let out = parse_impl(&block, &s("GeneModel"), Vis::Public, &MMDFormater()).unwrap();
    assert_eq!(
        out,
        vec![
            " GeneModel: +new(id, name) GeneModel",
            " GeneModel: +set_id(id) ",
            " GeneModel: -summarized() String",
            " GeneModel: ~summarized2() String",
            " GeneModel: -skip() ",
        ]
    );
}

#[test]
fn trait_impl_inherits_class_visibility() {
    let items = vec![
        Item::Impl(ItemImpl {
            has_trait: true,
            self_ty: path("OrganismModel"),
            items: vec![method("early", Visibility::Inherited, vec![], None)],
        }),
        strukt("OrganismModel", vec![]),
        Item::Impl(ItemImpl {
            has_trait: true,
            self_ty: path("OrganismModel"),
            items: vec![method("default", Visibility::Inherited, vec![], Some(path("Self")))],
        }),
        inherent(path("OrganismModel"), vec![method("log", Visibility::Inherited, vec![], None)]),
    ];
    let l = lines(items, "Model");
    assert_eq!(
        l[4..].to_vec(),
        vec![
            " class OrganismModel {",
            " }",
            " OrganismModel: -early() ",
            " OrganismModel: +default() OrganismModel",
            " OrganismModel: -log() ",
        ]
    );
}

#[test]
fn qualifying_by_suffix_marker_or_empty_suffix() {
    let marked = Item::Struct(ItemStruct {
        attrs: vec![Attribute { ident: Some(s("model")), str_value: None }],
        vis: Visibility::Inherited,
        ident: s("Marked"),
        fields: vec![],
    });
    let items = vec![strukt("Plain", vec![]), marked, strukt("GeneModel", vec![])];
    let l = lines(items, "Model");
    assert_eq!(l[4..].to_vec(), vec![" class Marked {", " }", " class GeneModel {", " }"]);
    let all = vec![strukt("Plain", vec![]), strukt("Other", vec![])];
    assert_eq!(lines(all, "")[4..].to_vec(), vec![" class Plain {", " }", " class Other {", " }"]);
}

#[test]
fn inline_modules_are_walked() {
    let items = vec![
        Item::Mod(Some(vec![strukt("InnerModel", vec![]), Item::Mod(Some(vec![strukt("DeepModel", vec![])]))])),
        Item::Mod(None),
        Item::Other,
    ];
    let l = lines(items, "Model");
    assert_eq!(l[4..].to_vec(), vec![" class InnerModel {", " }", " class DeepModel {", " }"]);
}

#[test]
fn redeclared_class_is_merged() {
    let items = vec![
        strukt("AModel", vec![field("x", path("u8"))]),
        Item::Mod(Some(vec![strukt("AModel", vec![field("y", path("u16"))])])),
    ];
    let l = lines(items, "Model");
    assert_eq!(
        l[4..].to_vec(),
        vec![" class AModel {", "  -u8 x", " }", " class AModel {", "  -u16 y", " }"]
    );
}

#[test]
fn markdown_output_is_fenced() {
    let items = vec![strukt("AModel", vec![])];
    let mut t = Tables::new();
    parse_items(&items, &args("Model"), &MMDFormater(), &mut t).unwrap();
    assert_eq!(
        render_document(&s("T"), &t, true),
        "```mermaid\n---\ntitle: T\n---\nclassDiagram\n class AModel {\n }\n```"
    );
    assert_eq!(
        generate(&vec![], &args("Model"), &MMDFormater(), true).unwrap(),
        "```mermaid\n---\ntitle: ER Diagram\n---\nclassDiagram\n```"
    );
}

#[test]
fn annotation_parts_are_trimmed() {
    assert_eq!(
        parse_annotation(&s("`#[relation =  n..n  :  exist_in ]`")).unwrap(),
        Some((s("n..n"), s("exist_in")))
    );
    assert_eq!(parse_annotation(&s("`#[relation=1:x]`")).unwrap(), Some((s("1"), s("x"))));
    assert_eq!(
        parse_annotation(&s("`#[relation = \u{3000}1\u{A0} : x\u{2003}]`")).unwrap(),
        Some((s("1"), s("x")))
    );
    assert_eq!(parse_annotation(&s(" `#[relation = 1 : x]`")).unwrap(), None);
    assert_eq!(parse_annotation(&s("just a comment")).unwrap(), None);
}

#[test]
fn only_the_first_doc_attribute_is_read() {
    let item = ItemStruct {
        attrs: vec![],
        vis: Visibility::Inherited,
        ident: s("AModel"),
        fields: vec![Field {
            attrs: vec![
                Attribute { ident: Some(s("serde")), str_value: Some(s("`#[relation = 1 : a]`")) },
                doc("plain text"),
                doc("`#[relation = 1 : b]`"),
            ],
            vis: Visibility::Inherited,
            ident: Some(s("b")),
            ty: path("BModel"),
        }],
    };
    let mut rels: Vec<RelationEntry> = vec![];
    parse_fields(&item, &MMDFormater(), &mut rels).unwrap();
    assert!(rels.is_empty());
}

#[test]
fn self_relation_puts_cardinality_right() {
    let items = vec![strukt("NodeModel", vec![annotated("next", "NodeModel", "`#[relation = 0..1 : next]`")])];
    let l = lines(items, "Model");
    assert_eq!(l[4], " NodeModel \"\" -- \"0..1\" NodeModel : next");
}

#[test]
fn visibility_mapping() {
    assert_eq!(Vis::from(Visibility::Public), Vis::Public);
    assert_eq!(Vis::from(Visibility::Inherited), Vis::Private);
    assert_eq!(Vis::from(Visibility::Restricted(Some(s("self")))), Vis::Private);
    assert_eq!(Vis::from(Visibility::Restricted(Some(s("crate")))), Vis::Internal);
    assert_eq!(Vis::from(Visibility::Restricted(None)), Vis::Internal);
    assert_eq!(Vis::default(), Vis::Private);
}

#[test]
fn mermaid_fragments() {
    let f = MMDFormater();
    assert_eq!(f.format_class(s("A")), " class A {");
    assert_eq!(f.format_field(s("+"), s("x"), s("u8")), "  +u8 x");
    assert_eq!(f.format_link(s("A"), s("1"), s("B"), s("n"), s("l")), " A \"1\" -- \"n\" B : l");
    assert_eq!(f.format_class_end(), " }");
    assert_eq!(
        f.format_fn(s("A"), s("-"), s("m"), vec![(s("a"), s("u8")), (s("b"), s("u16"))], s("u8")),
        " A: -m(a, b) u8"
    );
    assert_eq!(f.format_vis(Vis::Public), "+");
    assert_eq!(f.format_vis(Vis::Internal), "~");
    assert_eq!(f.format_vis(Vis::Protected), "#");
    assert_eq!(f.format_vis(Vis::Private), "-");
}

#[test]
fn decimal_and_order() {
    assert_eq!(decimal_text(0), "0");
    assert_eq!(decimal_text(1234), "1234");
    assert_eq!(decimal_text(usize::MAX), usize::MAX.to_string());
    assert!(text_less("AModel", "BModel"));
    assert!(!text_less("BModel", "AModel"));
    assert!(text_less("A", "AB"));
    assert!(!text_less("A", "A"));
    assert!(text_less("Z", "a"));
}
