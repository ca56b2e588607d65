//! Lower fletcher diagrams to LaTeX `tikz-cd`.
//!
//! Two authoring styles are handled:
//!   * matrix style — `diagram($ A edge("r","->") & B \ C & D $)`: a math
//!     matrix whose cells carry `edge(...)` markers. Maps almost 1:1 to tikz-cd
//!     (fletcher's `"r"`/`"d"`/`"rr"` direction strings are tikz-cd directions).
//!   * coordinate style — `diagram({ node((x,y), …) … edge((x0,y0),(x1,y1),…) })`:
//!     explicit grid coordinates, here already resolved to grid rows and
//!     columns; arrows are routed by the grid-index delta.
use vstd::prelude::*;

use crate::strings::{
    lemma_repeat_char, collapse_ws, count_char, lemma_count_concat, lemma_count_repeat, join, push_char, push_decimal, push_joined, push_repeated,
    push_trimmed, repeat, string_of, str_eq, trimmed, views, decimal, lemma_views_push, lemma_views_take,
};
use crate::typst2latex::context::{LowerContext, SpanInfo, UnsupportedView, unsupported_views};
use crate::typst2latex::ir::LatexIr;
use crate::typst2latex::lower_math::{
    RealizedMath, lower_math_fragment, parts_text, parts_unknowns, records_at,
};

verus! {

/// A piece of realized math inside a diagram, with where it comes from.
pub struct Fragment {
    pub math: RealizedMath,
    pub span: Option<SpanInfo>,
}

/// An arrow of a diagram.
pub struct Edge {
    /// The direction string (`"r"`, `"dr"`, ...), if given.
    pub dir: Option<String>,
    /// The arrow-mark string (`"->"`, `"|->"`, ...), if given.
    pub marks: Option<String>,
    /// The label, if any.
    pub label: Option<Fragment>,
    /// The label goes on the right-hand side.
    pub side_right: bool,
    /// The shift separating parallel arrows.
    pub shift: i64,
    /// For an edge that bends by more than half a unit: whether it bends to
    /// the left, and by how many whole units (rounded).
    pub bend: Option<(bool, u64)>,
    /// The edge is drawn invisibly and only carries its label.
    pub invisible: bool,
}

/// A cell of a matrix-style diagram: the math of its nodes (if any) and the
/// arrows that start there.
pub struct MatrixCell {
    pub nodes: Option<Fragment>,
    pub edges: Vec<Edge>,
}

/// A node of a coordinate-style diagram, at a grid row and column.
pub struct GridNode {
    pub row: u32,
    pub col: u32,
    pub body: Fragment,
}

/// An arrow of a coordinate-style diagram, from one grid position
/// `(row, column)` to another.
pub struct GridEdge {
    pub from: (u32, u32),
    pub to: (u32, u32),
    pub edge: Edge,
}

/// A fletcher diagram.
pub enum Diagram {
    /// Matrix style: rows of cells.
    Matrix(Vec<Vec<MatrixCell>>),
    /// Coordinate style: a `rows` × `cols` grid with nodes and arrows.
    Grid { rows: u32, cols: u32, nodes: Vec<GridNode>, edges: Vec<GridEdge> },
}

/// The tikz-cd arrow style for a fletcher arrow-mark string (none for the
/// default arrow and unknown marks).
pub open spec fn mark_style(marks: Option<Seq<char>>) -> Option<Seq<char>> {
    match marks {
        None => None,
        Some(m) => if m == "<-"@ {
            Some("leftarrow"@)
        } else if m == "<->"@ {
            Some("leftrightarrow"@)
        } else if m == "="@ || m == "=="@ {
            Some("equal"@)
        } else if m == "|->"@ {
            Some("mapsto"@)
        } else if m == ">->"@ || m == "hook->"@ {
            Some("hook"@)
        } else if m == "->>"@ {
            Some("twoheadrightarrow"@)
        } else {
            None
        },
    }
}

/// The grid delta `(columns, rows)` of a direction string: one step per
/// letter `r`, `l`, `d`, `u`; other characters are ignored.
pub open spec fn delta(dir: Seq<char>) -> (int, int) {
    (
        count_char(dir, 'r') as int - count_char(dir, 'l') as int,
        count_char(dir, 'd') as int - count_char(dir, 'u') as int,
    )
}

/// The tikz-cd direction string for grid-index deltas: downs, ups, rights,
/// lefts, or `r` when there is no movement.
pub open spec fn direction(dcol: int, drow: int) -> Seq<char> {
    let s = repeat("d"@, if drow > 0 {
        drow as nat
    } else {
        0
    }) + repeat("u"@, if drow < 0 {
        (-drow) as nat
    } else {
        0
    }) + repeat("r"@, if dcol > 0 {
        dcol as nat
    } else {
        0
    }) + repeat("l"@, if dcol < 0 {
        (-dcol) as nat
    } else {
        0
    });
    if s.len() == 0 {
        "r"@
    } else {
        s
    }
}

/// The LaTeX of a fragment, trimmed.
pub open spec fn fragment_latex(f: Fragment) -> Seq<char> {
    trimmed(collapse_ws(parts_text(f.math.parts@)))
}

/// The records a fragment leaves.
pub open spec fn fragment_records(f: Fragment) -> Seq<UnsupportedView> {
    records_at(parts_unknowns(f.math.parts@), f.span)
}

/// The options of an arrow: direction, arrow style, visibility, bend or
/// shift, and the (braced, possibly swapped) label.
pub open spec fn arrow_options(dir: Seq<char>, e: Edge) -> Seq<Seq<char>> {
    let with_style = match mark_style(match e.marks {
        Some(m) => Some(m@),
        None => None,
    }) {
        Some(m) => seq![dir, m],
        None => seq![dir],
    };
    let with_vis = if e.invisible {
        with_style.push("draw=none"@)
    } else {
        with_style
    };
    let with_bend = match e.bend {
        Some((left, amount)) => with_vis.push(
            (if left {
                "bend left="@
            } else {
                "bend right="@
            }) + decimal(amount as nat),
        ),
        None => if e.shift != 0 {
            with_vis.push(
                if e.shift < 0 {
                    "shift left"@
                } else {
                    "shift right"@
                },
            )
        } else {
            with_vis
        },
    };
    match e.label {
        Some(l) => if fragment_latex(l).len() > 0 {
            with_bend.push(
                "\"{"@ + fragment_latex(l) + "}\""@ + (if e.side_right {
                    "'"@
                } else {
                    Seq::empty()
                }),
            )
        } else {
            with_bend
        },
        None => with_bend,
    }
}

/// A tikz-cd arrow command.
pub open spec fn arrow_latex(dir: Seq<char>, e: Edge) -> Seq<char> {
    "\\arrow["@ + join(arrow_options(dir, e), ", "@) + "]"@
}

/// The records an arrow leaves (those of its label).
pub open spec fn edge_records(e: Edge) -> Seq<UnsupportedView> {
    match e.label {
        Some(l) => fragment_records(l),
        None => Seq::empty(),
    }
}

/// A tikz-cd environment around `rows`, centered on its own line unless
/// inside a table cell.
pub open spec fn tikzcd_latex(rows: Seq<char>, centered: bool) -> Seq<char> {
    let env = "\\begin{tikzcd}\n"@ + rows + "\n\\end{tikzcd}"@;
    if centered {
        "\n\\begin{center}\n"@ + env + "\n\\end{center}\n"@
    } else {
        "\n"@ + env + "\n"@
    }
}

/// Map a fletcher arrow-mark string to a tikz-cd arrow-style option.
pub fn mark_option(marks: &Option<String>) -> (res: Option<&'static str>)
    ensures
        match res {
            Some(r) => mark_style(match marks {
                Some(m) => Some(m@),
                None => None,
            }) == Some(r@),
            None => mark_style(match marks {
                Some(m) => Some(m@),
                None => None,
            }) is None,
        },
{
    match marks {
        None => None,
        Some(m) => {
            let m = m.as_str();
            if str_eq(m, "<-") {
                Some("leftarrow")
            } else if str_eq(m, "<->") {
                Some("leftrightarrow")
            } else if str_eq(m, "=") || str_eq(m, "==") {
                Some("equal")
            } else if str_eq(m, "|->") {
                Some("mapsto")
            } else if str_eq(m, ">->") || str_eq(m, "hook->") {
                Some("hook")
            } else if str_eq(m, "->>") {
                Some("twoheadrightarrow")
            } else {
                None
            }
        },
    }
}

/// Grid delta `(dcol, drow)` for a fletcher direction string like "r"/"dr"/"uu".
pub fn dir_delta(dir: &str) -> (res: (i64, i64))
    requires
        dir@.len() <= i64::MAX,
    ensures
        res.0 == delta(dir@).0,
        res.1 == delta(dir@).1,
{
    let cs = crate::strings::chars_of(dir);
    let mut dc: i64 = 0;
    let mut dr: i64 = 0;
    let mut i: usize = 0;
    while i < cs.len()
        invariant
            cs@ == dir@,
            i <= cs.len(),
            cs@.len() <= i64::MAX,
            dc == count_char(cs@.take(i as int), 'r') as int - count_char(cs@.take(i as int), 'l') as int,
            dr == count_char(cs@.take(i as int), 'd') as int - count_char(cs@.take(i as int), 'u') as int,
            -(i as int) <= dc <= i,
            -(i as int) <= dr <= i,
        decreases cs.len() - i,
    {
        assert(cs@.take(i + 1).drop_last() =~= cs@.take(i as int));
        let ch = cs[i];
        if ch == 'r' {
            dc = dc + 1;
        } else if ch == 'l' {
            dc = dc - 1;
        } else if ch == 'd' {
            dr = dr + 1;
        } else if ch == 'u' {
            dr = dr - 1;
        }
        i = i + 1;
    }
    assert(cs@.take(cs.len() as int) =~= cs@);
    (dc, dr)
}

/// tikz-cd direction string from grid-index deltas (`dcol`/`drow`). fletcher's
/// +y is down, matching tikz-cd's `d`.
pub fn index_dir(dcol: i64, drow: i64) -> (res: String)
    requires
        dcol > i64::MIN,
        drow > i64::MIN,
    ensures
        res@ == direction(dcol as int, drow as int),
{
    let mut s = String::new();
    push_repeated(&mut s, "d", if drow > 0 {
        drow as u64
    } else {
        0
    });
    push_repeated(&mut s, "u", if drow < 0 {
        (-drow) as u64
    } else {
        0
    });
    push_repeated(&mut s, "r", if dcol > 0 {
        dcol as u64
    } else {
        0
    });
    push_repeated(&mut s, "l", if dcol < 0 {
        (-dcol) as u64
    } else {
        0
    });
    if s.as_str().unicode_len() == 0 {
        s.append("r");
    }
    s
}

/// Wrap rows of a tikz-cd matrix in the environment.
pub fn tikzcd(rows: String, centered: bool) -> (res: LatexIr)
    ensures
        res@ == crate::typst2latex::ir::LatexTree::Latex(tikzcd_latex(rows@, centered)),
{
    let mut out = String::new();
    if centered {
        out.append("\n\\begin{center}\n");
    } else {
        out.append("\n");
    }
    out.append("\\begin{tikzcd}\n");
    out.append(rows.as_str());
    out.append("\n\\end{tikzcd}");
    if centered {
        out.append("\n\\end{center}\n");
    } else {
        out.append("\n");
    }
    assert(out@ =~= tikzcd_latex(rows@, centered));
    LatexIr::Latex(out)
}

/// The direction of a matrix-style arrow: its own, else `r`.
pub open spec fn edge_dir(e: Edge) -> Seq<char> {
    match e.dir {
        Some(d) => d@,
        None => "r"@,
    }
}

/// The arrows of a cell, each preceded by a space.
pub open spec fn edges_latex(edges: Seq<Edge>) -> Seq<char>
    decreases edges.len(),
{
    if edges.len() == 0 {
        Seq::empty()
    } else {
        edges_latex(edges.drop_last()) + " "@ + arrow_latex(edge_dir(edges.last()), edges.last())
    }
}

/// The records the arrows of a cell leave.
pub open spec fn edges_records(edges: Seq<Edge>) -> Seq<UnsupportedView>
    decreases edges.len(),
{
    if edges.len() == 0 {
        Seq::empty()
    } else {
        edges_records(edges.drop_last()) + edge_records(edges.last())
    }
}

/// A matrix cell: its node math (an invisible `{}` node when empty),
/// followed by its arrows.
pub open spec fn cell_latex(c: MatrixCell) -> Seq<char> {
    (match c.nodes {
        Some(f) => if fragment_latex(f).len() == 0 {
            "{}"@
        } else {
            fragment_latex(f)
        },
        None => "{}"@,
    }) + edges_latex(c.edges@)
}

/// The records a matrix cell leaves.
pub open spec fn cell_records(c: MatrixCell) -> Seq<UnsupportedView> {
    (match c.nodes {
        Some(f) => fragment_records(f),
        None => Seq::empty(),
    }) + edges_records(c.edges@)
}

/// The cells of a matrix row.
pub open spec fn row_cells(row: Seq<MatrixCell>) -> Seq<Seq<char>> {
    row.map_values(|c: MatrixCell| cell_latex(c))
}

/// The records a matrix row leaves.
pub open spec fn row_records(row: Seq<MatrixCell>) -> Seq<UnsupportedView>
    decreases row.len(),
{
    if row.len() == 0 {
        Seq::empty()
    } else {
        row_records(row.drop_last()) + cell_records(row.last())
    }
}

/// The records a matrix leaves.
pub open spec fn matrix_records(rows: Seq<Vec<MatrixCell>>) -> Seq<UnsupportedView>
    decreases rows.len(),
{
    if rows.len() == 0 {
        Seq::empty()
    } else {
        matrix_records(rows.drop_last()) + row_records(rows.last()@)
    }
}

/// The number of cells of the widest row.
pub open spec fn max_width(rows: Seq<Vec<MatrixCell>>) -> nat
    decreases rows.len(),
{
    if rows.len() == 0 {
        0
    } else {
        let w = max_width(rows.drop_last());
        if rows.last()@.len() > w {
            rows.last()@.len()
        } else {
            w
        }
    }
}

/// `cells` padded with invisible `{}` nodes to `width` cells.
pub open spec fn padded(cells: Seq<Seq<char>>, width: nat) -> Seq<Seq<char>> {
    if cells.len() < width {
        cells + Seq::new((width - cells.len()) as nat, |i: int| "{}"@)
    } else {
        cells
    }
}

/// The tikz-cd matrix of a matrix-style diagram: rows padded to a uniform
/// width, cells joined by ` & `, rows by ` \\` and a newline.
pub open spec fn matrix_latex(rows: Seq<Vec<MatrixCell>>) -> Seq<char> {
    join(
        Seq::new(
            rows.len(),
            |i: int| join(padded(row_cells(rows[i]@), max_width(rows)), " & "@),
        ),
        " \\\\\n"@,
    )
}

/// The last node placed at `(r, c)`.
pub open spec fn node_at(nodes: Seq<GridNode>, r: int, c: int) -> Option<GridNode>
    decreases nodes.len(),
{
    if nodes.len() == 0 {
        None
    } else if nodes.last().row == r && nodes.last().col == c {
        Some(nodes.last())
    } else {
        node_at(nodes.drop_last(), r, c)
    }
}

/// A grid arrow, routed by the grid-index delta.
pub open spec fn grid_arrow(e: GridEdge) -> Seq<char> {
    arrow_latex(direction(e.to.1 - e.from.1, e.to.0 - e.from.0), e.edge)
}

/// A self-loop (an edge from a grid position to itself): skipped.
pub open spec fn is_loop(e: GridEdge) -> bool {
    e.from == e.to
}

/// The arrows starting at `(r, c)`, each preceded by a space; self-loops
/// are skipped.
pub open spec fn arrows_from(edges: Seq<GridEdge>, r: int, c: int) -> Seq<char>
    decreases edges.len(),
{
    if edges.len() == 0 {
        Seq::empty()
    } else {
        arrows_from(edges.drop_last(), r, c) + if edges.last().from.0 == r && edges.last().from.1
            == c && !is_loop(edges.last()) {
            " "@ + grid_arrow(edges.last())
        } else {
            Seq::empty()
        }
    }
}

/// A grid cell: the last node placed there (an invisible `{}` node if none),
/// followed by the arrows that start there.
pub open spec fn grid_cell(nodes: Seq<GridNode>, edges: Seq<GridEdge>, r: int, c: int) -> Seq<char> {
    (match node_at(nodes, r, c) {
        Some(n) => fragment_latex(n.body),
        None => "{}"@,
    }) + arrows_from(edges, r, c)
}

/// The tikz-cd matrix of a coordinate-style diagram.
pub open spec fn grid_latex(rows: nat, cols: nat, nodes: Seq<GridNode>, edges: Seq<GridEdge>) -> Seq<
    char,
> {
    join(
        Seq::new(
            rows,
            |r: int| join(Seq::new(cols, |c: int| grid_cell(nodes, edges, r, c)), " & "@),
        ),
        " \\\\\n"@,
    )
}

/// The records the nodes of a grid leave.
pub open spec fn nodes_records(nodes: Seq<GridNode>) -> Seq<UnsupportedView>
    decreases nodes.len(),
{
    if nodes.len() == 0 {
        Seq::empty()
    } else {
        nodes_records(nodes.drop_last()) + fragment_records(nodes.last().body)
    }
}

/// The records the arrows of a grid leave (self-loops, being skipped, leave
/// none).
pub open spec fn grid_edges_records(edges: Seq<GridEdge>) -> Seq<UnsupportedView>
    decreases edges.len(),
{
    if edges.len() == 0 {
        Seq::empty()
    } else {
        grid_edges_records(edges.drop_last()) + if is_loop(edges.last()) {
            Seq::empty()
        } else {
            edge_records(edges.last().edge)
        }
    }
}

/// The LaTeX of a diagram.
pub open spec fn diagram_latex(d: Diagram, centered: bool) -> Seq<char> {
    tikzcd_latex(
        match d {
            Diagram::Matrix(rows) => matrix_latex(rows@),
            Diagram::Grid { rows, cols, nodes, edges } => grid_latex(
                rows as nat,
                cols as nat,
                nodes@,
                edges@,
            ),
        },
        centered,
    )
}

/// The records a diagram leaves.
pub open spec fn diagram_records(d: Diagram) -> Seq<UnsupportedView> {
    match d {
        Diagram::Matrix(rows) => matrix_records(rows@),
        Diagram::Grid { nodes, edges, .. } => nodes_records(nodes@) + grid_edges_records(edges@),
    }
}

/// What lowering leaves in the context besides new records: everything else
/// unchanged.
pub open spec fn same_but_records(before: LowerContext, after: LowerContext) -> bool {
    &&& after.defined_labels@ == before.defined_labels@
    &&& after.bib_resources@ == before.bib_resources@
    &&& after.in_table_cell == before.in_table_cell
}

/// Lower a piece of diagram math, trimmed.
fn fragment(f: &Fragment, ctx: &mut LowerContext) -> (res: String)
    ensures
        res@ == fragment_latex(*f),
        unsupported_views(final(ctx).unsupported@) == unsupported_views(old(ctx).unsupported@)
            + fragment_records(*f),
        same_but_records(*old(ctx), *final(ctx)),
{
    let text = lower_math_fragment(&f.math, ctx, &f.span);
    let mut out = String::new();
    push_trimmed(&mut out, text.as_str());
    out
}

/// Build a `\arrow[...]` command for an edge with an explicit direction.
pub fn arrow(dir: &str, edge: &Edge, ctx: &mut LowerContext) -> (res: String)
    ensures
        res@ == arrow_latex(dir@, *edge),
        unsupported_views(final(ctx).unsupported@) == unsupported_views(old(ctx).unsupported@)
            + edge_records(*edge),
        same_but_records(*old(ctx), *final(ctx)),
{
    let mut opts: Vec<String> = Vec::new();
    opts.push(string_of(dir));
    match mark_option(&edge.marks) {
        Some(m) => opts.push(string_of(m)),
        None => {},
    }
    let ghost o1 = views(opts@);
    if edge.invisible {
        opts.push(string_of("draw=none"));
    }
    let ghost o2 = views(opts@);
    match edge.bend {
        Some((left, amount)) => {
            let mut b = String::new();
            if left {
                b.append("bend left=");
            } else {
                b.append("bend right=");
            }
            push_decimal(&mut b, amount as u128);
            opts.push(b);
        },
        None => {
            if edge.shift != 0 {
                if edge.shift < 0 {
                    opts.push(string_of("shift left"));
                } else {
                    opts.push(string_of("shift right"));
                }
            }
        },
    }
    let ghost o3 = views(opts@);
    match &edge.label {
        Some(l) => {
            let text = fragment(l, ctx);
            if text.as_str().unicode_len() > 0 {
                let mut lab = String::new();
                lab.append("\"{");
                lab.append(text.as_str());
                lab.append("}\"");
                if edge.side_right {
                    lab.append("'");
                }
                opts.push(lab);
            }
        },
        None => {
            assert(unsupported_views(ctx.unsupported@) =~= unsupported_views(old(ctx).unsupported@)
                + edge_records(*edge));
        },
    }
    assert(views(opts@) =~= arrow_options(dir@, *edge));
    let mut out = String::new();
    out.append("\\arrow[");
    push_joined(&mut out, &opts, ", ");
    out.append("]");
    out
}

/// Render a matrix cell: its node math (or an invisible `{}` node) and its
/// arrows.
fn matrix_cell(cell: &MatrixCell, ctx: &mut LowerContext) -> (res: String)
    ensures
        res@ == cell_latex(*cell),
        unsupported_views(final(ctx).unsupported@) == unsupported_views(old(ctx).unsupported@)
            + cell_records(*cell),
        same_but_records(*old(ctx), *final(ctx)),
{
    let mut out = String::new();
    match &cell.nodes {
        Some(f) => {
            let math = fragment(f, ctx);
            if math.as_str().unicode_len() == 0 {
                out.append("{}");
            } else {
                out.append(math.as_str());
            }
        },
        None => {
            out.append("{}");
        },
    }
    let ghost base = out@;
    let ghost u0 = unsupported_views(ctx.unsupported@);
    let mut i: usize = 0;
    while i < cell.edges.len()
        invariant
            i <= cell.edges@.len(),
            out@ == base + edges_latex(cell.edges@.take(i as int)),
            unsupported_views(ctx.unsupported@) == u0 + edges_records(cell.edges@.take(i as int)),
            same_but_records(*old(ctx), *ctx),
        decreases cell.edges@.len() - i,
    {
        assert(cell.edges@.take(i + 1).drop_last() =~= cell.edges@.take(i as int));
        let e = &cell.edges[i];
        let dir = match &e.dir {
            Some(d) => string_of(d.as_str()),
            None => string_of("r"),
        };
        out.append(" ");
        let a = arrow(dir.as_str(), e, ctx);
        out.append(a.as_str());
        i = i + 1;
        assert(unsupported_views(ctx.unsupported@) =~= u0 + edges_records(cell.edges@.take(i as int)));
    }
    assert(cell.edges@.take(cell.edges@.len() as int) =~= cell.edges@);
    assert(unsupported_views(ctx.unsupported@) =~= unsupported_views(old(ctx).unsupported@)
        + cell_records(*cell));
    out
}

/// The rows of a matrix-style diagram: cells rendered in order, rows padded
/// to the widest row so that directional arrows always have a target cell.
pub fn matrix_rows(rows: &Vec<Vec<MatrixCell>>, ctx: &mut LowerContext) -> (res: String)
    ensures
        res@ == matrix_latex(rows@),
        unsupported_views(final(ctx).unsupported@) == unsupported_views(old(ctx).unsupported@)
            + matrix_records(rows@),
        same_but_records(*old(ctx), *final(ctx)),
{
    let mut rendered: Vec<Vec<String>> = Vec::new();
    let mut width: usize = 0;
    let mut r: usize = 0;
    while r < rows.len()
        invariant
            r <= rows@.len(),
            rendered@.len() == r,
            forall|k: int| 0 <= k < r ==> views(#[trigger] rendered@[k]@) == row_cells(rows@[k]@),
            width == max_width(rows@.take(r as int)),
            unsupported_views(ctx.unsupported@) == unsupported_views(old(ctx).unsupported@)
                + matrix_records(rows@.take(r as int)),
            same_but_records(*old(ctx), *ctx),
        decreases rows@.len() - r,
    {
        assert(rows@.take(r + 1).drop_last() =~= rows@.take(r as int));
        let row = &rows[r];
        let ghost u0 = unsupported_views(ctx.unsupported@);
        let mut cells: Vec<String> = Vec::new();
        let mut c: usize = 0;
        while c < row.len()
            invariant
                c <= row@.len(),
                views(cells@) == row_cells(row@.take(c as int)),
                unsupported_views(ctx.unsupported@) == u0 + row_records(row@.take(c as int)),
                same_but_records(*old(ctx), *ctx),
            decreases row@.len() - c,
        {
            assert(row@.take(c + 1).drop_last() =~= row@.take(c as int));
            let text = matrix_cell(&row[c], ctx);
            let ghost before = cells@;
            cells.push(text);
            proof {
                lemma_views_push(before, text);
                assert(row@.take(c + 1) =~= row@.take(c as int).push(row@[c as int]));
                assert(row_cells(row@.take(c + 1)) =~= row_cells(row@.take(c as int)).push(
                    cell_latex(row@[c as int]),
                ));
            }
            c = c + 1;
            assert(unsupported_views(ctx.unsupported@) =~= u0 + row_records(row@.take(c as int)));
        }
        assert(row@.take(row@.len() as int) =~= row@);
        if cells.len() > width {
            width = cells.len();
        }
        rendered.push(cells);
        r = r + 1;
        assert(unsupported_views(ctx.unsupported@) =~= unsupported_views(old(ctx).unsupported@)
            + matrix_records(rows@.take(r as int)));
    }
    assert(rows@.take(rows@.len() as int) =~= rows@);
    let mut lines: Vec<String> = Vec::new();
    let mut k: usize = 0;
    while k < rendered.len()
        invariant
            k <= rendered@.len(),
            rendered@.len() == rows@.len(),
            forall|j: int| 0 <= j < rendered@.len() ==> views(#[trigger] rendered@[j]@) == row_cells(rows@[j]@),
            width == max_width(rows@),
            views(lines@) =~= Seq::new(
                k as nat,
                |i: int| join(padded(row_cells(rows@[i]@), max_width(rows@)), " & "@),
            ),
        decreases rendered@.len() - k,
    {
        let mut line = String::new();
        let cells = &rendered[k];
        push_joined_padded(&mut line, cells, width);
        let ghost before = lines@;
        lines.push(line);
        proof {
            lemma_views_push(before, line);
        }
        k = k + 1;
    }
    let mut out = String::new();
    push_joined(&mut out, &lines, " \\\\\n");
    out
}

/// Appends `cells` padded with `{}` to `width`, joined by ` & `.
fn push_joined_padded(out: &mut String, cells: &Vec<String>, width: usize)
    ensures
        final(out)@ == old(out)@ + join(padded(views(cells@), width as nat), " & "@),
{
    let mut all: Vec<String> = Vec::new();
    let mut i: usize = 0;
    while i < cells.len()
        invariant
            i <= cells@.len(),
            views(all@) =~= views(cells@.take(i as int)),
        decreases cells@.len() - i,
    {
        let ghost before = all@;
        let copy = string_of(cells[i].as_str());
        all.push(copy);
        proof {
            lemma_views_push(before, copy);
            lemma_views_take(cells@, i as int);
        }
        i = i + 1;
    }
    assert(cells@.take(cells@.len() as int) =~= cells@);
    let n = cells.len();
    while i < width
        invariant
            n == cells@.len(),
            n <= i || i == n,
            i >= n,
            i <= width || i == n,
            views(all@) =~= views(cells@) + Seq::new((i - n) as nat, |j: int| "{}"@),
        decreases width - i,
    {
        let ghost before = all@;
        let pad = string_of("{}");
        all.push(pad);
        proof {
            lemma_views_push(before, pad);
            assert(Seq::new((i + 1 - n) as nat, |j: int| "{}"@) =~= Seq::new(
                (i - n) as nat,
                |j: int| "{}"@,
            ).push("{}"@));
        }
        i = i + 1;
    }
    assert(views(all@) =~= padded(views(cells@), width as nat));
    push_joined(out, &all, " & ");
}

/// The tikz-cd arrow of a grid edge that is no self-loop, routed by the
/// grid-index delta.
fn grid_edge_arrow(e: &GridEdge, ctx: &mut LowerContext) -> (res: String)
    requires
        !is_loop(*e),
    ensures
        res@ == grid_arrow(*e),
        unsupported_views(final(ctx).unsupported@) == unsupported_views(old(ctx).unsupported@)
            + edge_records(e.edge),
        same_but_records(*old(ctx), *final(ctx)),
{
    let dcol: i64 = e.to.1 as i64 - e.from.1 as i64;
    let drow: i64 = e.to.0 as i64 - e.from.0 as i64;
    let dir = index_dir(dcol, drow);
    arrow(dir.as_str(), &e.edge, ctx)
}

/// The rows of a coordinate-style diagram. Every grid position holds an
/// invisible `{}` node unless a node is placed there (the last one placed
/// wins); arrows are appended to the cell they start from, and self-loops
/// are skipped.
pub fn grid_rows(rows: u32, cols: u32, nodes: &Vec<GridNode>, edges: &Vec<GridEdge>, ctx: &mut LowerContext) -> (res: String)
    ensures
        res@ == grid_latex(rows as nat, cols as nat, nodes@, edges@),
        unsupported_views(final(ctx).unsupported@) == unsupported_views(old(ctx).unsupported@)
            + (nodes_records(nodes@) + grid_edges_records(edges@)),
        same_but_records(*old(ctx), *final(ctx)),
{
    let mut node_texts: Vec<String> = Vec::new();
    let mut i: usize = 0;
    while i < nodes.len()
        invariant
            i <= nodes@.len(),
            node_texts@.len() == i,
            forall|j: int| 0 <= j < i ==> (#[trigger] node_texts@[j])@ == fragment_latex(nodes@[j].body),
            unsupported_views(ctx.unsupported@) == unsupported_views(old(ctx).unsupported@)
                + nodes_records(nodes@.take(i as int)),
            same_but_records(*old(ctx), *ctx),
        decreases nodes@.len() - i,
    {
        assert(nodes@.take(i + 1).drop_last() =~= nodes@.take(i as int));
        let t = fragment(&nodes[i].body, ctx);
        node_texts.push(t);
        i = i + 1;
        assert(unsupported_views(ctx.unsupported@) =~= unsupported_views(old(ctx).unsupported@)
            + nodes_records(nodes@.take(i as int)));
    }
    assert(nodes@.take(nodes@.len() as int) =~= nodes@);
    let ghost u1 = unsupported_views(ctx.unsupported@);
    let mut arrows: Vec<String> = Vec::new();
    let mut i: usize = 0;
    while i < edges.len()
        invariant
            i <= edges@.len(),
            arrows@.len() == i,
            forall|j: int| 0 <= j < i && !is_loop(edges@[j]) ==> (#[trigger] arrows@[j])@ == grid_arrow(edges@[j]),
            unsupported_views(ctx.unsupported@) == u1 + grid_edges_records(edges@.take(i as int)),
            same_but_records(*old(ctx), *ctx),
        decreases edges@.len() - i,
    {
        assert(edges@.take(i + 1).drop_last() =~= edges@.take(i as int));
        let e = &edges[i];
        if e.from.0 == e.to.0 && e.from.1 == e.to.1 {
            arrows.push(String::new());
        } else {
            let a = grid_edge_arrow(e, ctx);
            arrows.push(a);
        }
        i = i + 1;
        assert(unsupported_views(ctx.unsupported@) =~= u1 + grid_edges_records(edges@.take(i as int)));
    }
    assert(edges@.take(edges@.len() as int) =~= edges@);
    assert(unsupported_views(ctx.unsupported@) =~= unsupported_views(old(ctx).unsupported@)
        + (nodes_records(nodes@) + grid_edges_records(edges@)));
    let mut lines: Vec<String> = Vec::new();
    let mut r: u32 = 0;
    while r < rows
        invariant
            r <= rows,
            node_texts@.len() == nodes@.len(),
            forall|j: int| 0 <= j < nodes@.len() ==> (#[trigger] node_texts@[j])@ == fragment_latex(nodes@[j].body),
            arrows@.len() == edges@.len(),
            forall|j: int| 0 <= j < edges@.len() && !is_loop(edges@[j]) ==> (#[trigger] arrows@[j])@ == grid_arrow(edges@[j]),
            views(lines@) =~= Seq::new(
                r as nat,
                |k: int| join(Seq::new(cols as nat, |c: int| grid_cell(nodes@, edges@, k, c)), " & "@),
            ),
        decreases rows - r,
    {
        let mut cells: Vec<String> = Vec::new();
        let mut c: u32 = 0;
        while c < cols
            invariant
                c <= cols,
                r < rows,
                node_texts@.len() == nodes@.len(),
                forall|j: int| 0 <= j < nodes@.len() ==> (#[trigger] node_texts@[j])@ == fragment_latex(nodes@[j].body),
                arrows@.len() == edges@.len(),
                forall|j: int| 0 <= j < edges@.len() && !is_loop(edges@[j]) ==> (#[trigger] arrows@[j])@ == grid_arrow(edges@[j]),
                views(cells@) =~= Seq::new(c as nat, |k: int| grid_cell(nodes@, edges@, r as int, k)),
            decreases cols - c,
        {
            let cell = grid_cell_text(r, c, nodes, &node_texts, edges, &arrows);
            let ghost before = cells@;
            cells.push(cell);
            proof {
                lemma_views_push(before, cell);
            }
            c = c + 1;
        }
        let mut line = String::new();
        push_joined(&mut line, &cells, " & ");
        let ghost before = lines@;
        lines.push(line);
        proof {
            lemma_views_push(before, line);
        }
        r = r + 1;
    }
    let mut out = String::new();
    push_joined(&mut out, &lines, " \\\\\n");
    out
}

/// The text of grid cell `(r, c)`, from the rendered nodes and arrows.
fn grid_cell_text(
    r: u32,
    c: u32,
    nodes: &Vec<GridNode>,
    node_texts: &Vec<String>,
    edges: &Vec<GridEdge>,
    arrows: &Vec<String>,
) -> (res: String)
    requires
        node_texts@.len() == nodes@.len(),
        forall|j: int| 0 <= j < nodes@.len() ==> (#[trigger] node_texts@[j])@ == fragment_latex(nodes@[j].body),
        arrows@.len() == edges@.len(),
        forall|j: int| 0 <= j < edges@.len() && !is_loop(edges@[j]) ==> (#[trigger] arrows@[j])@ == grid_arrow(edges@[j]),
    ensures
        res@ == grid_cell(nodes@, edges@, r as int, c as int),
{
    let mut found: Option<usize> = None;
    let mut i: usize = 0;
    while i < nodes.len()
        invariant
            i <= nodes@.len(),
            match found {
                Some(j) => j < i && node_at(nodes@.take(i as int), r as int, c as int) == Some(nodes@[j as int]),
                None => node_at(nodes@.take(i as int), r as int, c as int) is None,
            },
        decreases nodes@.len() - i,
    {
        assert(nodes@.take(i + 1).drop_last() =~= nodes@.take(i as int));
        if nodes[i].row == r && nodes[i].col == c {
            found = Some(i);
        }
        i = i + 1;
    }
    assert(nodes@.take(nodes@.len() as int) =~= nodes@);
    let mut out = String::new();
    match found {
        Some(j) => out.append(node_texts[j].as_str()),
        None => out.append("{}"),
    }
    let ghost base = out@;
    let mut i: usize = 0;
    while i < edges.len()
        invariant
            i <= edges@.len(),
            arrows@.len() == edges@.len(),
            forall|j: int| 0 <= j < edges@.len() && !is_loop(edges@[j]) ==> (#[trigger] arrows@[j])@ == grid_arrow(edges@[j]),
            out@ == base + arrows_from(edges@.take(i as int), r as int, c as int),
        decreases edges@.len() - i,
    {
        assert(edges@.take(i + 1).drop_last() =~= edges@.take(i as int));
        if edges[i].from.0 == r && edges[i].from.1 == c && !(edges[i].from.0 == edges[i].to.0 && edges[i].from.1
            == edges[i].to.1) {
            out.append(" ");
            out.append(arrows[i].as_str());
        }
        i = i + 1;
    }
    assert(edges@.take(edges@.len() as int) =~= edges@);
    out
}

/// Lower a diagram to a `tikz-cd`: centered when standalone, bare inside a
/// table cell.
pub fn lower_diagram(d: &Diagram, ctx: &mut LowerContext) -> (res: LatexIr)
    ensures
        res@ == crate::typst2latex::ir::LatexTree::Latex(diagram_latex(*d, !old(ctx).in_table_cell)),
        unsupported_views(final(ctx).unsupported@) == unsupported_views(old(ctx).unsupported@)
            + diagram_records(*d),
        same_but_records(*old(ctx), *final(ctx)),
{
    let centered = !ctx.in_table_cell;
    let rows = match d {
        Diagram::Matrix(rows) => matrix_rows(rows, ctx),
        Diagram::Grid { rows, cols, nodes, edges } => grid_rows(*rows, *cols, nodes, edges, ctx),
    };
    tikzcd(rows, centered)
}

/// Reading back the direction written for grid deltas gives the deltas: the
/// direction of `(dcol, drow)` steps exactly `dcol` columns and `drow` rows,
/// and one column to the right when there is no movement at all.
pub proof fn law_direction_delta(dcol: int, drow: int)
    ensures
        delta(direction(dcol, drow)) == if dcol == 0 && drow == 0 {
            (1int, 0int)
        } else {
            (dcol, drow)
        },
{
    reveal_strlit("d");
    reveal_strlit("u");
    reveal_strlit("r");
    reveal_strlit("l");
    let nd: nat = if drow > 0 { drow as nat } else { 0 };
    let nu: nat = if drow < 0 { (-drow) as nat } else { 0 };
    let nr: nat = if dcol > 0 { dcol as nat } else { 0 };
    let nl: nat = if dcol < 0 { (-dcol) as nat } else { 0 };
    let a = repeat(seq!['d'], nd);
    let b = repeat(seq!['u'], nu);
    let c = repeat(seq!['r'], nr);
    let e = repeat(seq!['l'], nl);
    assert("d"@ =~= seq!['d']);
    assert("u"@ =~= seq!['u']);
    assert("r"@ =~= seq!['r']);
    assert("l"@ =~= seq!['l']);
    let s = a + b + c + e;
    assert forall|ch: char| count_char(s, ch) == count_char(a, ch) + count_char(b, ch) + count_char(c, ch) + count_char(e, ch) by {
        lemma_count_concat(a, b, ch);
        lemma_count_concat(a + b, c, ch);
        lemma_count_concat(a + b + c, e, ch);
    }
    lemma_count_repeat('d', nd, 'r');
    lemma_count_repeat('u', nu, 'r');
    lemma_count_repeat('r', nr, 'r');
    lemma_count_repeat('l', nl, 'r');
    lemma_count_repeat('d', nd, 'l');
    lemma_count_repeat('u', nu, 'l');
    lemma_count_repeat('r', nr, 'l');
    lemma_count_repeat('l', nl, 'l');
    lemma_count_repeat('d', nd, 'd');
    lemma_count_repeat('u', nu, 'd');
    lemma_count_repeat('r', nr, 'd');
    lemma_count_repeat('l', nl, 'd');
    lemma_count_repeat('d', nd, 'u');
    lemma_count_repeat('u', nu, 'u');
    lemma_count_repeat('r', nr, 'u');
    lemma_count_repeat('l', nl, 'u');
    assert(count_char(s, 'r') == nr);
    assert(count_char(s, 'l') == nl);
    assert(count_char(s, 'd') == nd);
    assert(count_char(s, 'u') == nu);
    if dcol == 0 && drow == 0 {
        assert(s.len() == 0) by {
            assert(a =~= Seq::<char>::empty());
            assert(b =~= Seq::<char>::empty());
            assert(c =~= Seq::<char>::empty());
            assert(e =~= Seq::<char>::empty());
        }
        assert(seq!['r'].drop_last() =~= Seq::<char>::empty());
        reveal_with_fuel(count_char, 2);
    } else {
        assert(s.len() > 0) by {
            if drow > 0 {
                assert(count_char(s, 'd') > 0);
            } else if drow < 0 {
                assert(count_char(s, 'u') > 0);
            } else if dcol > 0 {
                assert(count_char(s, 'r') > 0);
            } else {
                assert(count_char(s, 'l') > 0);
            }
        }
    }
}

/// The absolute value of `x`.
pub open spec fn abs(x: int) -> nat {
    if x < 0 {
        (-x) as nat
    } else {
        x as nat
    }
}

/// The direction written for grid deltas is one step per row and column
/// moved, the vertical steps (`d` down or `u` up) first and then the
/// horizontal ones (`r` right or `l` left); with no movement at all it is
/// `r`.
pub proof fn law_direction_shape(dcol: int, drow: int)
    ensures
        dcol == 0 && drow == 0 ==> direction(dcol, drow) == "r"@,
        !(dcol == 0 && drow == 0) ==> {
            let s = direction(dcol, drow);
            &&& s.len() == abs(dcol) + abs(drow)
            &&& forall|i: int| 0 <= i < abs(drow) ==> #[trigger] s[i] == if drow > 0 {
                'd'
            } else {
                'u'
            }
            &&& forall|i: int| abs(drow) <= i < s.len() ==> #[trigger] s[i] == if dcol > 0 {
                'r'
            } else {
                'l'
            }
        },
{
    reveal_strlit("d");
    reveal_strlit("u");
    reveal_strlit("r");
    reveal_strlit("l");
    assert("d"@ =~= seq!['d']);
    assert("u"@ =~= seq!['u']);
    assert("r"@ =~= seq!['r']);
    assert("l"@ =~= seq!['l']);
    let nd: nat = if drow > 0 { drow as nat } else { 0 };
    let nu: nat = if drow < 0 { (-drow) as nat } else { 0 };
    let nr: nat = if dcol > 0 { dcol as nat } else { 0 };
    let nl: nat = if dcol < 0 { (-dcol) as nat } else { 0 };
    lemma_repeat_char('d', nd);
    lemma_repeat_char('u', nu);
    lemma_repeat_char('r', nr);
    lemma_repeat_char('l', nl);
    let v = repeat(seq!['d'], nd) + repeat(seq!['u'], nu);
    let h = repeat(seq!['r'], nr) + repeat(seq!['l'], nl);
    let s = v + h;
    assert(s =~= repeat("d"@, nd) + repeat("u"@, nu) + repeat("r"@, nr) + repeat("l"@, nl));
    assert(v.len() == abs(drow));
    assert(h.len() == abs(dcol));
    assert forall|i: int| 0 <= i < abs(drow) implies #[trigger] v[i] == if drow > 0 {
        'd'
    } else {
        'u'
    } by {
        if drow > 0 {
            assert(v[i] == repeat(seq!['d'], nd)[i]);
        } else {
            assert(v[i] == repeat(seq!['u'], nu)[i - nd]);
        }
    }
    assert forall|i: int| 0 <= i < abs(dcol) implies #[trigger] h[i] == if dcol > 0 {
        'r'
    } else {
        'l'
    } by {
        if dcol > 0 {
            assert(h[i] == repeat(seq!['r'], nr)[i]);
        } else {
            assert(h[i] == repeat(seq!['l'], nl)[i - nr]);
        }
    }
    assert forall|i: int| abs(drow) <= i < s.len() implies #[trigger] s[i] == h[i - abs(drow)] by {}
    assert forall|i: int| 0 <= i < abs(drow) implies #[trigger] s[i] == v[i] by {}
}

/// Membership after a push.
proof fn lemma_push_contains<A>(s: Seq<A>, x: A, y: A)
    ensures
        s.push(x).contains(y) <==> s.contains(y) || x == y,
{
    if s.contains(y) {
        let i = choose|i: int| 0 <= i < s.len() && s[i] == y;
        assert(s.push(x)[i] == y);
    }
    if x == y {
        assert(s.push(x)[s.len() as int] == y);
    }
    if s.push(x).contains(y) {
        let i = choose|i: int| 0 <= i < s.push(x).len() && s.push(x)[i] == y;
        if i < s.len() {
            assert(s[i] == y);
        }
    }
}

/// Two sequences of characters whose first characters differ are not equal.
proof fn lemma_first_differs(a: Seq<char>, b: Seq<char>)
    requires
        a.len() > 0,
        b.len() > 0,
        a[0] != b[0],
    ensures
        a != b,
{
}

/// Parallel arrows are pushed apart to the side their shift gives: with no
/// bend, a positive shift gives the option `shift right` and never `shift
/// left`, a negative one `shift left` and never `shift right`, and no shift
/// neither (unless the direction itself is spelled so).
pub proof fn law_shift_side(dir: Seq<char>, e: Edge)
    requires
        e.bend is None,
    ensures
        e.shift > 0 ==> arrow_options(dir, e).contains("shift right"@),
        e.shift < 0 ==> arrow_options(dir, e).contains("shift left"@),
        e.shift >= 0 && dir != "shift left"@ ==> !arrow_options(dir, e).contains("shift left"@),
        e.shift <= 0 && dir != "shift right"@ ==> !arrow_options(dir, e).contains("shift right"@),
{
    reveal_strlit("shift left");
    reveal_strlit("shift right");
    reveal_strlit("leftarrow");
    reveal_strlit("leftrightarrow");
    reveal_strlit("equal");
    reveal_strlit("mapsto");
    reveal_strlit("hook");
    reveal_strlit("twoheadrightarrow");
    reveal_strlit("draw=none");
    reveal_strlit("\"{");
    let sl = "shift left"@;
    let sr = "shift right"@;
    let style = mark_style(
        match e.marks {
            Some(m) => Some(m@),
            None => None,
        },
    );
    let with_style = match style {
        Some(m) => seq![dir, m],
        None => seq![dir],
    };
    let with_vis = if e.invisible {
        with_style.push("draw=none"@)
    } else {
        with_style
    };
    let with_bend = if e.shift != 0 {
        with_vis.push(
            if e.shift < 0 {
                sl
            } else {
                sr
            },
        )
    } else {
        with_vis
    };
    // No arrow style and no visibility option is a shift option.
    if let Some(m) = style {
        assert(m != sl && m != sr) by {
            assert(m.len() != sl.len() && m.len() != sr.len());
        }
    }
    assert(seq![dir] + Seq::<Seq<char>>::empty() =~= seq![dir]);
    match style {
        Some(m) => {
            assert(with_style =~= seq![dir].push(m));
            lemma_push_contains(seq![dir], m, sl);
            lemma_push_contains(seq![dir], m, sr);
        },
        None => {},
    }
    assert(seq![dir].contains(sl) ==> dir == sl);
    assert(seq![dir].contains(sr) ==> dir == sr);
    lemma_push_contains(with_style, "draw=none"@, sl);
    lemma_push_contains(with_style, "draw=none"@, sr);
    assert("draw=none"@ != sl && "draw=none"@ != sr) by {
        assert("draw=none"@.len() != sl.len() && "draw=none"@.len() != sr.len());
    }
    if e.shift != 0 {
        lemma_push_contains(with_vis, if e.shift < 0 { sl } else { sr }, sl);
        lemma_push_contains(with_vis, if e.shift < 0 { sl } else { sr }, sr);
        assert(sl != sr) by {
            assert(sl.len() != sr.len());
        }
    }
    match e.label {
        Some(l) => if fragment_latex(l).len() > 0 {
            let lab = "\"{"@ + fragment_latex(l) + "}\""@ + (if e.side_right {
                "'"@
            } else {
                Seq::empty()
            });
            lemma_first_differs(lab, sl);
            lemma_first_differs(lab, sr);
            lemma_push_contains(with_bend, lab, sl);
            lemma_push_contains(with_bend, lab, sr);
        },
        None => {},
    }
}

} // verus!
