//! Unsupported constructs stay visible: every construct that lowering
//! records (other than unknown math, which shows as `\mathrm{[?name]}`)
//! appears in the rendered LaTeX as its `\texttt{[unsupported Typst
//! element: name]}` marker.
use vstd::prelude::*;

use crate::strings::{contains_sub, starts_with};
use crate::typst2latex::context::UnsupportedView;
use crate::typst2latex::ir::{LatexTree, rendered, rendered_join, rendered_rows};
use crate::typst2latex::lower::{
    CurrystMarker, Env, FootnoteBody, Grouping, LoweredList, Node, StackChild, TableChild, TableItem, Value,
    cells_lowering, chunks, curryst_marker, flushed, grouping, interleaved, item_lowering, items_lowering,
    lemma_curryst_marker, lemma_grouping_step, lemma_item_step, lemma_lowering_compound, lemma_lowering_figure,
    lemma_lowering_leaf, lemma_lowering_optional, lemma_lowering_wrapped, lemma_stack_step, lemma_theorem_frame,
    lemma_values_step, list_of, lowering, plain, stack_lowering, theorem_frame, values_lowering,
};
use crate::typst2latex::lower_fletcher::{
    Diagram, Edge, GridEdge, GridNode, MatrixCell, diagram_records, edge_records, edges_records,
    fragment_records, grid_edges_records, matrix_records, nodes_records, row_records, cell_records,
};
use crate::typst2latex::lower_math::{
    MathNode, MathStyle, math_unknowns, math_unknowns_seq, parts_unknowns, records_at, script_unknowns,
};

verus! {

/// The visible marker of an unsupported construct named `name`.
pub open spec fn marker(name: Seq<char>) -> Seq<char> {
    "\\texttt{[unsupported Typst element: "@ + name + "]}"@
}

/// A record of an unknown math element (named `math.<name>`).
pub open spec fn math_record(u: UnsupportedView) -> bool {
    starts_with(u.name, "math."@)
}

/// All records are of unknown math elements.
pub open spec fn all_math(us: Seq<UnsupportedView>) -> bool {
    forall|k: int| 0 <= k < us.len() ==> math_record(#[trigger] us[k])
}

/// The markers of the records `unsup` (unknown math aside) appear in the
/// rendering of `ir`.
pub open spec fn shown(ir: LatexTree, unsup: Seq<UnsupportedView>) -> bool {
    forall|k: int|
        #![trigger unsup[k]]
        0 <= k < unsup.len() && !math_record(unsup[k]) ==> contains_sub(rendered(ir), marker(unsup[k].name))
}

/// `m` appears in the rendering of one of `xs`.
pub open spec fn in_some(xs: Seq<LatexTree>, m: Seq<char>) -> bool {
    exists|i: int| 0 <= i < xs.len() && contains_sub(rendered(#[trigger] xs[i]), m)
}

/// The markers of the records `unsup` (unknown math aside) appear in the
/// rendering of one of `xs`.
pub open spec fn shown_in(xs: Seq<LatexTree>, unsup: Seq<UnsupportedView>) -> bool {
    forall|k: int|
        #![trigger unsup[k]]
        0 <= k < unsup.len() && !math_record(unsup[k]) ==> in_some(xs, marker(unsup[k].name))
}

/// A sequence contains itself.
pub proof fn lemma_contains_self(s: Seq<char>)
    ensures
        contains_sub(s, s),
{
    let z: int = 0;
    assert(s.subrange(z, z + s.len()) =~= s);
}

/// What a part contains, the whole contains.
pub proof fn lemma_contains_extend(a: Seq<char>, x: Seq<char>, b: Seq<char>, m: Seq<char>)
    requires
        contains_sub(x, m),
    ensures
        contains_sub(a + x + b, m),
{
    let i = choose|i: int| 0 <= i && i + m.len() <= x.len() && #[trigger] x.subrange(i, i + m.len()) == m;
    let j = a.len() + i;
    assert((a + x + b).subrange(j, j + m.len()) =~= x.subrange(i, i + m.len()));
}

/// What one of the items renders to, their join contains.
pub proof fn lemma_join_contains(xs: Seq<LatexTree>, sep: Seq<char>, m: Seq<char>)
    requires
        in_some(xs, m),
    ensures
        contains_sub(rendered_join(xs, sep), m),
    decreases xs.len(),
{
    let i = choose|i: int| 0 <= i < xs.len() && contains_sub(rendered(#[trigger] xs[i]), m);
    if xs.len() == 1 {
    } else if i == xs.len() - 1 {
        lemma_contains_extend(rendered_join(xs.drop_last(), sep) + sep, rendered(xs.last()), Seq::empty(), m);
        assert(rendered_join(xs.drop_last(), sep) + sep + rendered(xs.last()) + Seq::<char>::empty()
            =~= rendered_join(xs, sep));
    } else {
        assert(xs.drop_last()[i] == xs[i]);
        lemma_join_contains(xs.drop_last(), sep, m);
        lemma_contains_extend(Seq::empty(), rendered_join(xs.drop_last(), sep), sep + rendered(xs.last()), m);
        assert(Seq::<char>::empty() + rendered_join(xs.drop_last(), sep) + (sep + rendered(xs.last()))
            =~= rendered_join(xs, sep));
    }
}

/// What one of the children renders to, the sequence contains.
pub proof fn lemma_sequence_contains(xs: Seq<LatexTree>, m: Seq<char>)
    requires
        in_some(xs, m),
    ensures
        contains_sub(rendered(LatexTree::Sequence(xs)), m),
{
    lemma_join_contains(xs, Seq::empty(), m);
}

/// Appending keeps what the earlier items show, and shows the new one.
pub proof fn lemma_in_some_push(xs: Seq<LatexTree>, x: LatexTree, m: Seq<char>)
    requires
        in_some(xs, m) || contains_sub(rendered(x), m),
    ensures
        in_some(xs.push(x), m),
{
    if in_some(xs, m) {
        let i = choose|i: int| 0 <= i < xs.len() && contains_sub(rendered(#[trigger] xs[i]), m);
        assert(xs.push(x)[i] == xs[i]);
    } else {
        assert(xs.push(x)[xs.len() as int] == x);
    }
}

/// A cell of a table row shows in the rows.
pub proof fn lemma_rows_contains(rows: Seq<Seq<LatexTree>>, r: int, m: Seq<char>)
    requires
        0 <= r < rows.len(),
        in_some(rows[r], m),
    ensures
        contains_sub(rendered_rows(rows), m),
    decreases rows.len(),
{
    let last = rows.len() - 1;
    if r == last {
        lemma_join_contains(rows[r], " & "@, m);
        lemma_contains_extend(rendered_rows(rows.drop_last()), rendered_join(rows[r], " & "@), " \\\\\n"@, m);
    } else {
        assert(rows.drop_last()[r] == rows[r]);
        lemma_rows_contains(rows.drop_last(), r, m);
        lemma_contains_extend(
            Seq::empty(),
            rendered_rows(rows.drop_last()),
            rendered_join(rows.last(), " & "@) + " \\\\\n"@,
            m,
        );
        assert(Seq::<char>::empty() + rendered_rows(rows.drop_last()) + (rendered_join(rows.last(), " & "@)
            + " \\\\\n"@) =~= rendered_rows(rows));
    }
}

/// Records of unknown math put together are records of unknown math.
pub proof fn lemma_all_math_concat(a: Seq<UnsupportedView>, b: Seq<UnsupportedView>)
    requires
        all_math(a),
        all_math(b),
    ensures
        all_math(a + b),
{
    assert forall|k: int| 0 <= k < (a + b).len() implies math_record(#[trigger] (a + b)[k]) by {
        if k < a.len() {
            assert((a + b)[k] == a[k]);
        } else {
            assert((a + b)[k] == b[k - a.len()]);
        }
    }
}

/// Records of unknown math show trivially.
pub proof fn lemma_all_math_shown(ir: LatexTree, us: Seq<UnsupportedView>)
    requires
        all_math(us),
    ensures
        shown(ir, us),
{
}

/// Where a cell lands among the rows: row and position.
pub proof fn lemma_chunk_position(s: Seq<LatexTree>, n: nat, k: int) -> (pos: (int, int))
    requires
        n > 0,
        0 <= k < s.len(),
    ensures
        0 <= pos.0 < chunks(s, n).len(),
        0 <= pos.1 < chunks(s, n)[pos.0].len(),
        chunks(s, n)[pos.0][pos.1] == s[k],
    decreases s.len(),
{
    if s.len() <= n {
        assert(chunks(s, n) =~= seq![s]);
        (0, k)
    } else {
        let c = chunks(s, n);
        assert(c =~= seq![s.take(n as int)] + chunks(s.skip(n as int), n));
        if k < n {
            assert(c[0] == s.take(n as int));
            (0, k)
        } else {
            let p = lemma_chunk_position(s.skip(n as int), n, k - n);
            assert(c[p.0 + 1] == chunks(s.skip(n as int), n)[p.0]);
            (p.0 + 1, p.1)
        }
    }
}

/// Where an element lands among the elements with line breaks between them.
pub proof fn lemma_interleaved_position(irs: Seq<LatexTree>, k: int) -> (j: int)
    requires
        0 <= k < irs.len(),
    ensures
        0 <= j < interleaved(irs).len(),
        interleaved(irs)[j] == irs[k],
    decreases irs.len(),
{
    if irs.len() <= 1 {
        k
    } else {
        let prev = interleaved(irs.drop_last());
        let out = interleaved(irs);
        assert(out == prev.push(LatexTree::Latex(" \\\\ "@)).push(irs.last()));
        if k == irs.len() - 1 {
            (out.len() - 1) as int
        } else {
            assert(irs.drop_last()[k] == irs[k]);
            let j = lemma_interleaved_position(irs.drop_last(), k);
            assert(out[j] == prev[j]);
            j
        }
    }
}

/// The names all start with `math.`.
pub open spec fn prefixed(names: Seq<Seq<char>>) -> bool {
    forall|k: int| 0 <= k < names.len() ==> starts_with(#[trigger] names[k], "math."@)
}

proof fn lemma_prefixed_concat(a: Seq<Seq<char>>, b: Seq<Seq<char>>)
    requires
        prefixed(a),
        prefixed(b),
    ensures
        prefixed(a + b),
{
    assert forall|k: int| 0 <= k < (a + b).len() implies starts_with(#[trigger] (a + b)[k], "math."@) by {
        if k < a.len() {
            assert((a + b)[k] == a[k]);
        } else {
            assert((a + b)[k] == b[k - a.len()]);
        }
    }
}

/// Unknown math elements are named `math.<name>`.
pub proof fn lemma_math_unknowns_prefixed(n: MathNode)
    ensures
        prefixed(math_unknowns(n)),
    decreases n,
{
    match n {
        MathNode::Sequence(children) => lemma_seq_unknowns_prefixed(children@),
        MathNode::Group(body) => {
            if let Some(b) = body {
                lemma_math_unknowns_prefixed(*b);
            }
        },
        MathNode::Styled(_, child) => lemma_math_unknowns_prefixed(*child),
        MathNode::Frac(num, denom) => {
            lemma_math_unknowns_prefixed(*num);
            lemma_math_unknowns_prefixed(*denom);
            lemma_prefixed_concat(math_unknowns(*num), math_unknowns(*denom));
        },
        MathNode::Root { index, radicand } => {
            let a = match index {
                Some(i) => {
                    lemma_math_unknowns_prefixed(*i);
                    math_unknowns(*i)
                },
                None => Seq::empty(),
            };
            lemma_math_unknowns_prefixed(*radicand);
            lemma_prefixed_concat(a, math_unknowns(*radicand));
        },
        MathNode::Attach { base, t, b, tl, bl, tr, br } => {
            lemma_script_unknowns_prefixed(tl);
            lemma_script_unknowns_prefixed(bl);
            lemma_script_unknowns_prefixed(b);
            lemma_script_unknowns_prefixed(t);
            lemma_script_unknowns_prefixed(br);
            lemma_script_unknowns_prefixed(tr);
            lemma_math_unknowns_prefixed(*base);
            lemma_prefixed_concat(script_unknowns(tl), script_unknowns(bl));
            lemma_prefixed_concat(script_unknowns(tl) + script_unknowns(bl), math_unknowns(*base));
            lemma_prefixed_concat(script_unknowns(b), script_unknowns(t));
            lemma_prefixed_concat(script_unknowns(br), script_unknowns(tr));
            lemma_prefixed_concat(
                script_unknowns(b) + script_unknowns(t),
                script_unknowns(br) + script_unknowns(tr),
            );
            lemma_prefixed_concat(
                script_unknowns(tl) + script_unknowns(bl) + math_unknowns(*base),
                (script_unknowns(b) + script_unknowns(t)) + (script_unknowns(br) + script_unknowns(tr)),
            );
        },
        MathNode::Lr(children) => lemma_seq_unknowns_prefixed(children@),
        MathNode::Op(text) => lemma_math_unknowns_prefixed(*text),
        MathNode::Accent { kind, body, annotation } => {
            lemma_math_unknowns_prefixed(*body);
            if let Some(a) = annotation {
                lemma_math_unknowns_prefixed(*a);
                lemma_prefixed_concat(math_unknowns(*body), math_unknowns(*a));
            }
            assert(math_unknowns(*body) + Seq::<Seq<char>>::empty() =~= math_unknowns(*body));
        },
        MathNode::Unknown(name) => {
            let s = "math."@ + name@;
            assert(s.subrange(0, "math."@.len() as int) =~= "math."@);
        },
        _ => {},
    }
}

proof fn lemma_script_unknowns_prefixed(script: Option<Box<MathNode>>)
    ensures
        prefixed(script_unknowns(script)),
    decreases script,
{
    if let Some(s) = script {
        lemma_math_unknowns_prefixed(*s);
    }
}

proof fn lemma_seq_unknowns_prefixed(s: Seq<MathNode>)
    ensures
        prefixed(math_unknowns_seq(s)),
    decreases s,
{
    if s.len() > 0 {
        lemma_seq_unknowns_prefixed(s.drop_last());
        lemma_math_unknowns_prefixed(s.last());
        lemma_prefixed_concat(math_unknowns_seq(s.drop_last()), math_unknowns(s.last()));
    }
}

/// The unknown-element names of realized math are named `math.<name>`.
pub proof fn lemma_parts_prefixed(parts: Seq<(MathNode, MathStyle)>)
    ensures
        prefixed(parts_unknowns(parts)),
    decreases parts.len(),
{
    if parts.len() > 0 {
        lemma_parts_prefixed(parts.drop_last());
        lemma_math_unknowns_prefixed(parts.last().0);
        lemma_prefixed_concat(parts_unknowns(parts.drop_last()), math_unknowns(parts.last().0));
    }
}

/// The records of unknown math names are records of unknown math.
pub proof fn lemma_records_math(names: Seq<Seq<char>>, span: Option<crate::typst2latex::context::SpanInfo>)
    requires
        prefixed(names),
    ensures
        all_math(records_at(names, span)),
{
    assert forall|k: int| 0 <= k < records_at(names, span).len() implies math_record(
        #[trigger] records_at(names, span)[k],
    ) by {
        assert(records_at(names, span)[k].name == names[k]);
    }
}

proof fn lemma_edges_math(edges: Seq<Edge>)
    ensures
        all_math(edges_records(edges)),
    decreases edges.len(),
{
    if edges.len() > 0 {
        lemma_edges_math(edges.drop_last());
        let e = edges.last();
        if let Some(l) = e.label {
            lemma_parts_prefixed(l.math.parts@);
            lemma_records_math(parts_unknowns(l.math.parts@), l.span);
        }
        lemma_all_math_concat(edges_records(edges.drop_last()), edge_records(e));
    }
}

proof fn lemma_row_math(row: Seq<MatrixCell>)
    ensures
        all_math(row_records(row)),
    decreases row.len(),
{
    if row.len() > 0 {
        lemma_row_math(row.drop_last());
        let c = row.last();
        let a = match c.nodes {
            Some(f) => {
                lemma_parts_prefixed(f.math.parts@);
                lemma_records_math(parts_unknowns(f.math.parts@), f.span);
                fragment_records(f)
            },
            None => Seq::empty(),
        };
        lemma_edges_math(c.edges@);
        lemma_all_math_concat(a, edges_records(c.edges@));
        lemma_all_math_concat(row_records(row.drop_last()), cell_records(c));
    }
}

proof fn lemma_matrix_math(rows: Seq<Vec<MatrixCell>>)
    ensures
        all_math(matrix_records(rows)),
    decreases rows.len(),
{
    if rows.len() > 0 {
        lemma_matrix_math(rows.drop_last());
        lemma_row_math(rows.last()@);
        lemma_all_math_concat(matrix_records(rows.drop_last()), row_records(rows.last()@));
    }
}

proof fn lemma_nodes_math(nodes: Seq<GridNode>)
    ensures
        all_math(nodes_records(nodes)),
    decreases nodes.len(),
{
    if nodes.len() > 0 {
        lemma_nodes_math(nodes.drop_last());
        let f = nodes.last().body;
        lemma_parts_prefixed(f.math.parts@);
        lemma_records_math(parts_unknowns(f.math.parts@), f.span);
        lemma_all_math_concat(nodes_records(nodes.drop_last()), fragment_records(f));
    }
}

proof fn lemma_grid_edges_math(edges: Seq<GridEdge>)
    ensures
        all_math(grid_edges_records(edges)),
    decreases edges.len(),
{
    if edges.len() > 0 {
        lemma_grid_edges_math(edges.drop_last());
        let e = edges.last().edge;
        if let Some(l) = e.label {
            lemma_parts_prefixed(l.math.parts@);
            lemma_records_math(parts_unknowns(l.math.parts@), l.span);
        }
        lemma_all_math_concat(grid_edges_records(edges.drop_last()), edge_records(e));
        lemma_all_math_concat(grid_edges_records(edges.drop_last()), Seq::empty());
    }
}

/// The records a diagram leaves are all of unknown math.
pub proof fn lemma_diagram_math(d: Diagram)
    ensures
        all_math(diagram_records(d)),
{
    match d {
        Diagram::Matrix(rows) => lemma_matrix_math(rows@),
        Diagram::Grid { nodes, edges, .. } => {
            lemma_nodes_math(nodes@);
            lemma_grid_edges_math(edges@);
            lemma_all_math_concat(nodes_records(nodes@), grid_edges_records(edges@));
        },
    }
}

/// An element that lowers to a space leaves no records.
pub proof fn lemma_space_no_records(n: Node, env: Env, bib: Seq<Seq<char>>)
    ensures
        lowering(n, env, bib).ir is Space ==> lowering(n, env, bib).unsup.len() == 0,
    decreases n,
{
    lemma_lowering_wrapped(n, env, bib);
    lemma_lowering_optional(n, env, bib);
    lemma_lowering_leaf(n, env, bib);
    lemma_lowering_compound(n, env, bib);
    if n is Figure {
        lemma_lowering_figure(n, env, bib);
    }
    match n {
        Node::Styled { child, .. } => lemma_space_no_records(*child, env, bib),
        Node::Align(b) => lemma_space_no_records(*b, env, bib),
        Node::Boxed(Some(b)) => lemma_space_no_records(*b, env, bib),
        Node::Metadata { value, .. } => {
            lemma_curryst_marker(value);
            if let Some(CurrystMarker::ProofTree(rule)) = curryst_marker(value) {
                lemma_space_no_records(rule, env, bib);
            }
        },
        _ => {},
    }
}

/// What one of the items renders to, the list contains.
pub proof fn lemma_list_contains(items: Seq<LatexTree>, numbered: bool, m: Seq<char>)
    requires
        in_some(items, m),
    ensures
        contains_sub(rendered(list_of(items, numbered)), m),
{
    lemma_join_contains(items, Seq::empty(), m);
    if numbered {
        lemma_contains_extend("\\begin{enumerate}\n"@, rendered_join(items, Seq::empty()), "\\end{enumerate}\n"@, m);
    } else {
        lemma_contains_extend("\\begin{itemize}\n"@, rendered_join(items, Seq::empty()), "\\end{itemize}\n"@, m);
    }
}

/// What the gathered children or list show, the flushed children show.
pub proof fn lemma_flushed_shows(children: Seq<LatexTree>, list: Seq<LatexTree>, numbered: bool, m: Seq<char>)
    requires
        in_some(children, m) || in_some(list, m),
    ensures
        in_some(flushed(children, list, numbered), m),
{
    if in_some(list, m) {
        lemma_list_contains(list, numbered, m);
        lemma_in_some_push(children, list_of(list, numbered), m);
    } else if list.len() > 0 {
        lemma_in_some_push(children, list_of(list, numbered), m);
    }
}

/// The records of a grouping show among its children or its gathered list.
pub open spec fn group_shown(g: Grouping) -> bool {
    forall|k: int|
        #![trigger g.unsup[k]]
        0 <= k < g.unsup.len() && !math_record(g.unsup[k]) ==> in_some(g.children, marker(g.unsup[k].name))
            || in_some(g.list, marker(g.unsup[k].name))
}

/// Appending a shown element keeps everything shown.
pub proof fn lemma_push_shown(
    irs: Seq<LatexTree>,
    unsup: Seq<UnsupportedView>,
    ir: LatexTree,
    more: Seq<UnsupportedView>,
)
    requires
        shown_in(irs, unsup),
        shown(ir, more),
    ensures
        shown_in(irs.push(ir), unsup + more),
{
    let all = unsup + more;
    assert forall|k: int| #![trigger all[k]] 0 <= k < all.len() && !math_record(all[k]) implies in_some(
        irs.push(ir),
        marker(all[k].name),
    ) by {
        if k < unsup.len() {
            assert(all[k] == unsup[k]);
            lemma_in_some_push(irs, ir, marker(all[k].name));
        } else {
            assert(all[k] == more[k - unsup.len()]);
            lemma_in_some_push(irs, ir, marker(all[k].name));
        }
    }
}

proof fn lemma_grouping_shown(s: Seq<Node>, env: Env, bib: Seq<Seq<char>>)
    ensures
        group_shown(grouping(s, env, bib)),
    decreases s,
{
    if s.len() > 0 {
        lemma_grouping_step(s, env, bib);
        lemma_grouping_shown(s.drop_last(), env, bib);
        let g0 = grouping(s.drop_last(), env, bib);
        let l = lowering(s.last(), env, g0.bib);
        law_unsupported_shown(s.last(), env, g0.bib);
        lemma_space_no_records(s.last(), env, g0.bib);
        let g = grouping(s, env, bib);
        assert(g.unsup == g0.unsup + l.unsup);
        assert forall|k: int|
            #![trigger g.unsup[k]]
            0 <= k < g.unsup.len() && !math_record(g.unsup[k]) implies in_some(g.children, marker(g.unsup[k].name))
                || in_some(g.list, marker(g.unsup[k].name)) by {
            let m = marker(g.unsup[k].name);
            if k < g0.unsup.len() {
                assert(g.unsup[k] == g0.unsup[k]);
                if l.ir is Item {
                    if g0.list.len() > 0 && g0.numbered != (s.last() is EnumItem) {
                        lemma_flushed_shows(g0.children, g0.list, g0.numbered, m);
                    } else if in_some(g0.list, m) {
                        lemma_in_some_push(g0.list, l.ir, m);
                    }
                } else if l.ir is Space && g0.list.len() > 0 {
                } else {
                    lemma_flushed_shows(g0.children, g0.list, g0.numbered, m);
                    lemma_in_some_push(flushed(g0.children, g0.list, g0.numbered), l.ir, m);
                }
            } else {
                assert(g.unsup[k] == l.unsup[k - g0.unsup.len()]);
                assert(contains_sub(rendered(l.ir), m));
                if l.ir is Item {
                    if g0.list.len() > 0 && g0.numbered != (s.last() is EnumItem) {
                        lemma_in_some_push(Seq::empty(), l.ir, m);
                        assert(Seq::<LatexTree>::empty().push(l.ir) =~= seq![l.ir]);
                    } else {
                        lemma_in_some_push(g0.list, l.ir, m);
                    }
                } else if l.ir is Space && g0.list.len() > 0 {
                } else {
                    lemma_in_some_push(flushed(g0.children, g0.list, g0.numbered), l.ir, m);
                }
            }
        }
    }
}

proof fn lemma_stack_shown(s: Seq<StackChild>, env: Env, bib: Seq<Seq<char>>)
    ensures
        shown_in(stack_lowering(s, env, bib).irs, stack_lowering(s, env, bib).unsup),
    decreases s,
{
    if s.len() > 0 {
        lemma_stack_step(s, env, bib);
        lemma_stack_shown(s.drop_last(), env, bib);
        let prev = stack_lowering(s.drop_last(), env, bib);
        if let StackChild::Block(c) = s.last() {
            law_unsupported_shown(c, env, prev.bib);
            let l = lowering(c, env, prev.bib);
            lemma_push_shown(prev.irs, prev.unsup, l.ir, l.unsup);
        }
    }
}

proof fn lemma_values_shown(s: Seq<Value>, env: Env, bib: Seq<Seq<char>>)
    ensures
        shown_in(values_lowering(s, env, bib).irs, values_lowering(s, env, bib).unsup),
    decreases s,
{
    if s.len() > 0 {
        lemma_values_step(s, env, bib);
        lemma_values_shown(s.drop_last(), env, bib);
        let prev = values_lowering(s.drop_last(), env, bib);
        if let Value::Content(c) = s.last() {
            law_unsupported_shown(*c, env, prev.bib);
            let l = lowering(*c, env, prev.bib);
            lemma_push_shown(prev.irs, prev.unsup, l.ir, l.unsup);
        }
    }
}

proof fn lemma_item_shown(item: TableItem, env: Env, prev: LoweredList)
    requires
        shown_in(prev.irs, prev.unsup),
    ensures
        shown_in(item_lowering(item, env, prev).irs, item_lowering(item, env, prev).unsup),
    decreases item,
{
    lemma_item_step(item, env, prev);
    if let TableItem::Cell(c) = item {
        law_unsupported_shown(c, env, prev.bib);
        let l = lowering(c, env, prev.bib);
        lemma_push_shown(prev.irs, prev.unsup, l.ir, l.unsup);
    }
}

proof fn lemma_items_shown(s: Seq<TableItem>, env: Env, prev: LoweredList)
    requires
        shown_in(prev.irs, prev.unsup),
    ensures
        shown_in(items_lowering(s, env, prev).irs, items_lowering(s, env, prev).unsup),
    decreases s,
{
    if s.len() > 0 {
        lemma_items_shown(s.drop_last(), env, prev);
        lemma_item_shown(s.last(), env, items_lowering(s.drop_last(), env, prev));
    }
}

proof fn lemma_cells_shown(s: Seq<TableChild>, env: Env, bib: Seq<Seq<char>>)
    ensures
        shown_in(cells_lowering(s, env, bib).irs, cells_lowering(s, env, bib).unsup),
    decreases s,
{
    if s.len() > 0 {
        lemma_cells_shown(s.drop_last(), env, bib);
        let prev = cells_lowering(s.drop_last(), env, bib);
        match s.last() {
            TableChild::Item(item) => lemma_item_shown(item, env, prev),
            TableChild::Header(items) => lemma_items_shown(items@, env, prev),
            TableChild::Footer(items) => lemma_items_shown(items@, env, prev),
        }
    }
}

/// Every construct lowering records (unknown math aside, which shows as
/// `\mathrm{[?name]}`) appears in the rendered result as its
/// `\texttt{[unsupported Typst element: name]}` marker: unsupported
/// constructs never vanish silently.
pub proof fn law_unsupported_shown(n: Node, env: Env, bib: Seq<Seq<char>>)
    ensures
        shown(lowering(n, env, bib).ir, lowering(n, env, bib).unsup),
    decreases n,
{
    lemma_lowering_wrapped(n, env, bib);
    lemma_lowering_optional(n, env, bib);
    lemma_lowering_leaf(n, env, bib);
    lemma_lowering_compound(n, env, bib);
    let l = lowering(n, env, bib);
    match n {
        Node::Labelled(inner, key) => {
            law_unsupported_shown(*inner, env, bib);
            let li = lowering(*inner, env, bib);
            let xs = seq![li.ir, LatexTree::Latex("\\label{"@ + key@ + "}"@)];
            assert forall|k: int| #![trigger l.unsup[k]] 0 <= k < l.unsup.len() && !math_record(l.unsup[k]) implies contains_sub(
                rendered(l.ir),
                marker(l.unsup[k].name),
            ) by {
                assert(xs[0] == li.ir);
                lemma_sequence_contains(xs, marker(l.unsup[k].name));
            }
        },
        Node::Sequence(children) => {
            lemma_grouping_shown(children@, env, bib);
            let g = grouping(children@, env, bib);
            assert forall|k: int| #![trigger l.unsup[k]] 0 <= k < l.unsup.len() && !math_record(l.unsup[k]) implies contains_sub(
                rendered(l.ir),
                marker(l.unsup[k].name),
            ) by {
                assert(l.unsup[k] == g.unsup[k]);
                lemma_flushed_shows(g.children, g.list, g.numbered, marker(l.unsup[k].name));
                lemma_sequence_contains(flushed(g.children, g.list, g.numbered), marker(l.unsup[k].name));
            }
        },
        Node::Styled { child, .. } => law_unsupported_shown(*child, env, bib),
        Node::Align(b) => law_unsupported_shown(*b, env, bib),
        Node::Boxed(Some(b)) => law_unsupported_shown(*b, env, bib),
        Node::Block(Some(b)) => law_unsupported_shown(*b, env, bib),
        Node::Rect(Some(b)) => law_unsupported_shown(*b, env, bib),
        Node::Heading { level, numbered, body } => {
            law_unsupported_shown(*body, env, bib);
            lemma_wrapped_shown(
                lowering(*body, env, bib).ir,
                l.ir,
                "\\"@ + crate::typst2latex::ir::heading_cmd(level) + (if numbered {
                    Seq::empty()
                } else {
                    "*"@
                }) + "{"@,
                "}\n"@,
                l.unsup,
            );
        },
        Node::ListItem(b) => {
            law_unsupported_shown(*b, env, bib);
            lemma_wrapped_shown(lowering(*b, env, bib).ir, l.ir, "\\item "@, "\n"@, l.unsup);
        },
        Node::EnumItem(b) => {
            law_unsupported_shown(*b, env, bib);
            lemma_wrapped_shown(lowering(*b, env, bib).ir, l.ir, "\\item "@, "\n"@, l.unsup);
        },
        Node::TermItem(b) => {
            law_unsupported_shown(*b, env, bib);
            lemma_wrapped_shown(lowering(*b, env, bib).ir, l.ir, "\\item "@, "\n"@, l.unsup);
        },
        Node::Link(b) => {
            law_unsupported_shown(*b, env, bib);
            lemma_wrapped_shown(lowering(*b, env, bib).ir, l.ir, "\\href{"@ + Seq::<char>::empty() + "}{"@, "}"@, l.unsup);
        },
        Node::Footnote(FootnoteBody::Content(c)) => {
            law_unsupported_shown(*c, env, bib);
            lemma_wrapped_shown(lowering(*c, env, bib).ir, l.ir, "\\footnote{"@, "}"@, l.unsup);
        },
        Node::Strong(b) => {
            law_unsupported_shown(*b, env, bib);
            lemma_wrapped_shown(lowering(*b, env, bib).ir, l.ir, "\\textbf{"@, "}"@, l.unsup);
        },
        Node::Emph(b) => {
            law_unsupported_shown(*b, env, bib);
            lemma_wrapped_shown(lowering(*b, env, bib).ir, l.ir, "\\emph{"@, "}"@, l.unsup);
        },
        Node::Stack(children) => {
            lemma_stack_shown(children@, env, bib);
            let st = stack_lowering(children@, env, bib);
            assert forall|k: int| #![trigger l.unsup[k]] 0 <= k < l.unsup.len() && !math_record(l.unsup[k]) implies contains_sub(
                rendered(l.ir),
                marker(l.unsup[k].name),
            ) by {
                let m = marker(l.unsup[k].name);
                assert(l.unsup[k] == st.unsup[k]);
                let i = choose|i: int| 0 <= i < st.irs.len() && contains_sub(rendered(#[trigger] st.irs[i]), m);
                let j = lemma_interleaved_position(st.irs, i);
                assert(interleaved(st.irs)[j] == st.irs[i]);
                lemma_sequence_contains(interleaved(st.irs), m);
            }
        },
        Node::Table { columns, children } => {
            let env2 = Env { in_cell: true, ..env };
            lemma_cells_shown(children@, env2, bib);
            let cells = cells_lowering(children@, env2, bib);
            let cols: usize = if columns < 1 {
                1
            } else {
                columns
            };
            let rows = chunks(cells.irs, cols as nat);
            assert forall|k: int| #![trigger l.unsup[k]] 0 <= k < l.unsup.len() && !math_record(l.unsup[k]) implies contains_sub(
                rendered(l.ir),
                marker(l.unsup[k].name),
            ) by {
                let m = marker(l.unsup[k].name);
                assert(l.unsup[k] == cells.unsup[k]);
                let i = choose|i: int| 0 <= i < cells.irs.len() && contains_sub(rendered(#[trigger] cells.irs[i]), m);
                let p = lemma_chunk_position(cells.irs, cols as nat, i);
                assert(rows[p.0][p.1] == cells.irs[i]);
                lemma_rows_contains(rows, p.0, m);
                let head = "\\begin{tabular}{"@ + crate::strings::repeat("l"@, cols as nat) + "}\n\\hline\n"@;
                lemma_contains_extend(head, rendered_rows(rows), "\\hline\n\\end{tabular}\n"@, m);
                assert(rendered(l.ir) =~= head + rendered_rows(rows) + "\\hline\n\\end{tabular}\n"@);
            }
        },
        Node::Metadata { value, .. } => {
            lemma_curryst_marker(value);
            match curryst_marker(value) {
                Some(CurrystMarker::Rule { premises, conclusion }) => {
                    lemma_values_shown(premises@, env, bib);
                    let ps = values_lowering(premises@, env, bib);
                    law_unsupported_shown(conclusion, env, ps.bib);
                    let c = lowering(conclusion, env, ps.bib);
                    assert forall|k: int| #![trigger l.unsup[k]] 0 <= k < l.unsup.len() && !math_record(l.unsup[k]) implies contains_sub(
                        rendered(l.ir),
                        marker(l.unsup[k].name),
                    ) by {
                        let m = marker(l.unsup[k].name);
                        let pj = rendered_join(ps.irs, " \\\\ "@);
                        if k < ps.unsup.len() {
                            assert(l.unsup[k] == ps.unsup[k]);
                            lemma_join_contains(ps.irs, " \\\\ "@, m);
                            lemma_contains_extend("\\inferrule{"@, pj, "}{"@ + rendered(c.ir) + "}"@, m);
                            assert(rendered(l.ir) =~= "\\inferrule{"@ + pj + ("}{"@ + rendered(c.ir) + "}"@));
                        } else {
                            assert(l.unsup[k] == c.unsup[k - ps.unsup.len()]);
                            lemma_contains_extend("\\inferrule{"@ + pj + "}{"@, rendered(c.ir), "}"@, m);
                        }
                    }
                },
                Some(CurrystMarker::RuleSet(trees)) => {
                    lemma_values_shown(trees@, env, bib);
                    let ts = values_lowering(trees@, env, bib);
                    assert forall|k: int| #![trigger l.unsup[k]] 0 <= k < l.unsup.len() && !math_record(l.unsup[k]) implies contains_sub(
                        rendered(l.ir),
                        marker(l.unsup[k].name),
                    ) by {
                        let m = marker(l.unsup[k].name);
                        assert(l.unsup[k] == ts.unsup[k]);
                        lemma_join_contains(ts.irs, "\n\n"@, m);
                        lemma_contains_extend(
                            "\\begin{mathpar}\n"@,
                            rendered_join(ts.irs, "\n\n"@),
                            "\n\\end{mathpar}\n"@,
                            m,
                        );
                    }
                },
                Some(CurrystMarker::ProofTree(rule)) => law_unsupported_shown(rule, env, bib),
                None => {
                    lemma_contains_self(rendered(l.ir));
                },
            }
        },
        Node::Figure { body, caption } => {
            lemma_lowering_figure(n, env, bib);
            lemma_theorem_frame(*body);
            match theorem_frame(*body) {
                Some(f) => {
                    let tl = match f.title {
                        Some(Value::Content(c)) => {
                            law_unsupported_shown(*c, env, bib);
                            lowering(*c, env, bib)
                        },
                        _ => plain(LatexTree::Space, bib),
                    };
                    law_unsupported_shown(f.body, env, tl.bib);
                    let bl = lowering(f.body, env, tl.bib);
                    let open = "\\begin{"@ + f.kind + "}"@;
                    let close = "\n\\end{"@ + f.kind + "}\n"@;
                    assert forall|k: int| #![trigger l.unsup[k]] 0 <= k < l.unsup.len() && !math_record(l.unsup[k]) implies contains_sub(
                        rendered(l.ir),
                        marker(l.unsup[k].name),
                    ) by {
                        let m = marker(l.unsup[k].name);
                        if k < tl.unsup.len() {
                            assert(l.unsup[k] == tl.unsup[k]);
                            assert(f.title matches Some(Value::Content(_)));
                            let rest = "]"@ + "\n"@ + rendered(bl.ir) + close;
                            lemma_contains_extend(open + "["@, rendered(tl.ir), rest, m);
                            assert(rendered(l.ir) =~= open + "["@ + rendered(tl.ir) + rest);
                        } else {
                            assert(l.unsup[k] == bl.unsup[k - tl.unsup.len()]);
                            let tpart = match l.ir {
                                LatexTree::TheoremEnv { title, .. } => match title {
                                    Some(t) => "["@ + rendered(*t) + "]"@,
                                    None => Seq::empty(),
                                },
                                _ => Seq::empty(),
                            };
                            lemma_contains_extend(open + tpart + "\n"@, rendered(bl.ir), close, m);
                            assert(rendered(l.ir) =~= open + tpart + "\n"@ + rendered(bl.ir) + close);
                        }
                    }
                },
                None => {
                    law_unsupported_shown(*body, env, bib);
                    let b = lowering(*body, env, bib);
                    let open = "\\begin{figure}[htbp]\n\\centering\n"@;
                    match caption {
                        Some(c) => {
                            law_unsupported_shown(*c, env, b.bib);
                            let cl = lowering(*c, env, b.bib);
                            assert forall|k: int| #![trigger l.unsup[k]] 0 <= k < l.unsup.len() && !math_record(l.unsup[k]) implies contains_sub(
                                rendered(l.ir),
                                marker(l.unsup[k].name),
                            ) by {
                                let m = marker(l.unsup[k].name);
                                let cap = "\\caption{"@ + rendered(cl.ir) + "}\n"@;
                                if k < b.unsup.len() {
                                    assert(l.unsup[k] == b.unsup[k]);
                                    lemma_contains_extend(open, rendered(b.ir), "\n"@ + cap + "\\end{figure}\n"@, m);
                                    assert(rendered(l.ir) =~= open + rendered(b.ir) + ("\n"@ + cap + "\\end{figure}\n"@));
                                } else {
                                    assert(l.unsup[k] == cl.unsup[k - b.unsup.len()]);
                                    lemma_contains_extend(
                                        open + rendered(b.ir) + "\n"@ + "\\caption{"@,
                                        rendered(cl.ir),
                                        "}\n"@ + "\\end{figure}\n"@,
                                        m,
                                    );
                                    assert(rendered(l.ir) =~= open + rendered(b.ir) + "\n"@ + "\\caption{"@ + rendered(cl.ir) + ("}\n"@ + "\\end{figure}\n"@));
                                }
                            }
                        },
                        None => {
                            let after = "\n"@ + Seq::<char>::empty() + "\\end{figure}\n"@;
                            assert(rendered(l.ir) =~= open + rendered(b.ir) + after);
                            lemma_wrapped_shown(b.ir, l.ir, open, after, l.unsup);
                        },
                    }
                },
            }
        },
        Node::Equation(eq) => {
            lemma_parts_prefixed(eq.body.parts@);
            lemma_records_math(parts_unknowns(eq.body.parts@), eq.span);
        },
        Node::Diagram(d) => {
            lemma_diagram_math(d);
        },
        Node::Other { .. } => {
            lemma_contains_self(rendered(l.ir));
        },
        _ => {},
    }
}

/// A wrapper whose rendering surrounds its child's shows what the child
/// shows.
proof fn lemma_wrapped_shown(
    child: LatexTree,
    whole: LatexTree,
    before: Seq<char>,
    after: Seq<char>,
    unsup: Seq<UnsupportedView>,
)
    requires
        shown(child, unsup),
        rendered(whole) == before + rendered(child) + after,
    ensures
        shown(whole, unsup),
{
    assert forall|k: int| #![trigger unsup[k]] 0 <= k < unsup.len() && !math_record(unsup[k]) implies contains_sub(
        rendered(whole),
        marker(unsup[k].name),
    ) by {
        lemma_contains_extend(before, rendered(child), after, marker(unsup[k].name));
    }
}

} // verus!
