use vstd::prelude::*;

use super::{pair_texts, ClassDiagramFormater, Vis};

verus! {

/// Renders Mermaid class diagrams.
pub struct MMDFormater();

/// The first texts of the pairs, with `sep` between each two.
pub open spec fn join_firsts(v: Seq<(Seq<char>, Seq<char>)>, sep: Seq<char>) -> Seq<char>
    decreases v.len(),
{
    if v.len() == 0 {
        Seq::empty()
    } else if v.len() == 1 {
        v[0].0
    } else {
        join_firsts(v.drop_last(), sep) + sep + v.last().0
    }
}

impl ClassDiagramFormater for MMDFormater {
    open spec fn class_text(&self, name: Seq<char>) -> Seq<char> {
        " class "@ + name + " {"@
    }

    open spec fn field_text(&self, vis: Seq<char>, name: Seq<char>, ty: Seq<char>) -> Seq<char> {
        "  "@ + vis + ty + " "@ + name
    }

    open spec fn link_text(
        &self,
        clazz1: Seq<char>,
        cardinality1: Seq<char>,
        clazz2: Seq<char>,
        cardinality2: Seq<char>,
        label: Seq<char>,
    ) -> Seq<char> {
        " "@ + clazz1 + " \""@ + cardinality1 + "\" -- \""@ + cardinality2 + "\" "@ + clazz2
            + " : "@ + label
    }

    open spec fn class_end_text(&self) -> Seq<char> {
        " }"@
    }

    open spec fn fn_text(
        &self,
        clazz: Seq<char>,
        vis: Seq<char>,
        method_name: Seq<char>,
        inputs: Seq<(Seq<char>, Seq<char>)>,
        output: Seq<char>,
    ) -> Seq<char> {
        " "@ + clazz + ": "@ + vis + method_name + "("@ + join_firsts(inputs, ", "@) + ") "@
            + output
    }

    open spec fn vis_text(&self, vis: Vis) -> Seq<char> {
        match vis {
            Vis::Public => "+"@,
            Vis::Internal => "~"@,
            Vis::Protected => "#"@,
            Vis::Private => "-"@,
        }
    }

    fn format_class(&self, name: String) -> (r: String) {
        let mut r = " class ".to_owned();
        r.append(name.as_str());
        r.append(" {");
        r
    }

    fn format_field(&self, vis: String, name: String, ty: String) -> (r: String) {
        let mut r = "  ".to_owned();
        r.append(vis.as_str());
        r.append(ty.as_str());
        r.append(" ");
        r.append(name.as_str());
        r
    }

    fn format_link(
        &self,
        clazz1: String,
        cardinality1: String,
        clazz2: String,
        cardinality2: String,
        label: String,
    ) -> (r: String) {
        let mut r = " ".to_owned();
        r.append(clazz1.as_str());
        r.append(" \"");
        r.append(cardinality1.as_str());
        r.append("\" -- \"");
        r.append(cardinality2.as_str());
        r.append("\" ");
        r.append(clazz2.as_str());
        r.append(" : ");
        r.append(label.as_str());
        r
    }

    fn format_class_end(&self) -> (r: String) {
        " }".to_owned()
    }

    fn format_fn(
        &self,
        clazz: String,
        vis: String,
        method_name: String,
        inputs: Vec<(String, String)>,
        output: String,
    ) -> (r: String) {
        let ghost pairs = pair_texts(inputs@);
        let mut names = String::new();
        let mut i: usize = 0;
        while i < inputs.len()
            invariant
                i <= inputs@.len(),
                pairs == pair_texts(inputs@),
                names@ == join_firsts(pairs.subrange(0, i as int), ", "@),
            decreases inputs@.len() - i,
        {
            if i > 0 {
                names.append(", ");
            }
            names.append(inputs[i].0.as_str());
            assert(pairs.subrange(0, i + 1).drop_last() =~= pairs.subrange(0, i as int));
            i = i + 1;
        }
        assert(pairs.subrange(0, i as int) =~= pairs);
        let mut r = " ".to_owned();
        r.append(clazz.as_str());
        r.append(": ");
        r.append(vis.as_str());
        r.append(method_name.as_str());
        r.append("(");
        r.append(names.as_str());
        r.append(") ");
        r.append(output.as_str());
        r
    }

    fn format_vis(&self, vis: Vis) -> (r: String) {
        match vis {
            Vis::Public => "+".to_owned(),
            Vis::Internal => "~".to_owned(),
            Vis::Protected => "#".to_owned(),
            Vis::Private => "-".to_owned(),
        }
    }
}

} // verus!
