//! The cell structure of a matrix-style fletcher diagram: its body is a run
//! of math items in which alignment points separate cells and line breaks
//! separate rows; every other item belongs to the cell it stands in, edge
//! markers as the cell's arrows and the rest as its content.
use vstd::prelude::*;

verus! {

/// What one item of a matrix-style diagram body is, for its layout.
#[derive(Debug, Clone, Copy, PartialEq, Eq, Structural)]
pub enum MatrixToken {
    /// An alignment point (`&`): ends a cell.
    AlignPoint,
    /// A line break (`\`): ends a cell and its row.
    Linebreak,
    /// An edge marker: an arrow leaving the cell.
    Edge,
    /// Anything else: part of the cell's content.
    Node,
}

/// One cell: the positions (in the body) of its content items and of its
/// edge markers, in order.
pub struct CellLayout {
    pub nodes: Vec<usize>,
    pub edges: Vec<usize>,
}

/// A cell as the positions of its content items and of its edge markers.
pub type CellView = (Seq<usize>, Seq<usize>);

/// The layout being built: the finished rows, the cells of the current row,
/// and the items of the current cell.
pub struct LayoutState {
    pub rows: Seq<Seq<CellView>>,
    pub row: Seq<CellView>,
    pub nodes: Seq<usize>,
    pub edges: Seq<usize>,
}

/// The layout after the item at position `i`, of kind `t`.
pub open spec fn layout_step(st: LayoutState, i: usize, t: MatrixToken) -> LayoutState {
    match t {
        MatrixToken::AlignPoint => LayoutState {
            rows: st.rows,
            row: st.row.push((st.nodes, st.edges)),
            nodes: Seq::empty(),
            edges: Seq::empty(),
        },
        MatrixToken::Linebreak => LayoutState {
            rows: st.rows.push(st.row.push((st.nodes, st.edges))),
            row: Seq::empty(),
            nodes: Seq::empty(),
            edges: Seq::empty(),
        },
        MatrixToken::Edge => LayoutState { edges: st.edges.push(i), ..st },
        MatrixToken::Node => LayoutState { nodes: st.nodes.push(i), ..st },
    }
}

/// The layout after the first `n` items of `toks`.
pub open spec fn layout_upto(toks: Seq<MatrixToken>, n: nat) -> LayoutState
    decreases n,
{
    if n == 0 || n > toks.len() {
        LayoutState { rows: Seq::empty(), row: Seq::empty(), nodes: Seq::empty(), edges: Seq::empty() }
    } else {
        layout_step(layout_upto(toks, (n - 1) as nat), (n - 1) as usize, toks[n - 1])
    }
}

/// The rows of cells of a body made of the items `toks`: the last cell and
/// the last row end with the body.
pub open spec fn matrix_layout_of(toks: Seq<MatrixToken>) -> Seq<Seq<CellView>> {
    let st = layout_upto(toks, toks.len());
    st.rows.push(st.row.push((st.nodes, st.edges)))
}

/// The layout as positions.
pub open spec fn layout_view(rows: Seq<Vec<CellLayout>>) -> Seq<Seq<CellView>> {
    rows.map_values(|r: Vec<CellLayout>| row_view(r@))
}

/// A row as positions.
pub open spec fn row_view(row: Seq<CellLayout>) -> Seq<CellView> {
    row.map_values(|c: CellLayout| (c.nodes@, c.edges@))
}

/// Split a matrix-style diagram body, given by the kinds of its items, into
/// rows of cells: an alignment point ends a cell, a line break ends a cell
/// and its row, and each other item goes to the cell it stands in.
pub fn matrix_layout(toks: &Vec<MatrixToken>) -> (res: Vec<Vec<CellLayout>>)
    ensures
        layout_view(res@) == matrix_layout_of(toks@),
{
    let mut rows: Vec<Vec<CellLayout>> = Vec::new();
    let mut row: Vec<CellLayout> = Vec::new();
    let mut nodes: Vec<usize> = Vec::new();
    let mut edges: Vec<usize> = Vec::new();
    let mut i: usize = 0;
    assert(layout_view(rows@) =~= Seq::<Seq<CellView>>::empty());
    assert(row_view(row@) =~= Seq::<CellView>::empty());
    while i < toks.len()
        invariant
            i <= toks@.len(),
            ({
                let st = layout_upto(toks@, i as nat);
                &&& layout_view(rows@) == st.rows
                &&& row_view(row@) == st.row
                &&& nodes@ == st.nodes
                &&& edges@ == st.edges
            }),
        decreases toks@.len() - i,
    {
        let ghost st = layout_upto(toks@, i as nat);
        match toks[i] {
            MatrixToken::AlignPoint => {
                let cell = CellLayout { nodes, edges };
                let ghost before = row@;
                row.push(cell);
                assert(row_view(row@) =~= row_view(before).push((st.nodes, st.edges)));
                nodes = Vec::new();
                edges = Vec::new();
            },
            MatrixToken::Linebreak => {
                let cell = CellLayout { nodes, edges };
                let ghost before = row@;
                row.push(cell);
                assert(row_view(row@) =~= row_view(before).push((st.nodes, st.edges)));
                let ghost before_rows = rows@;
                rows.push(row);
                assert(layout_view(rows@) =~= layout_view(before_rows).push(st.row.push((st.nodes, st.edges))));
                row = Vec::new();
                assert(row_view(row@) =~= Seq::<CellView>::empty());
                nodes = Vec::new();
                edges = Vec::new();
            },
            MatrixToken::Edge => {
                edges.push(i);
            },
            MatrixToken::Node => {
                nodes.push(i);
            },
        }
        assert(nodes@ =~= layout_upto(toks@, (i + 1) as nat).nodes);
        assert(edges@ =~= layout_upto(toks@, (i + 1) as nat).edges);
        i = i + 1;
    }
    let ghost st = layout_upto(toks@, i as nat);
    let cell = CellLayout { nodes, edges };
    let ghost before = row@;
    row.push(cell);
    assert(row_view(row@) =~= row_view(before).push((st.nodes, st.edges)));
    let ghost before_rows = rows@;
    rows.push(row);
    assert(layout_view(rows@) =~= layout_view(before_rows).push(st.row.push((st.nodes, st.edges))));
    rows
}

/// The positions among the first `n` items of `toks` that are of kind `k`,
/// in order.
pub open spec fn positions_upto(toks: Seq<MatrixToken>, k: MatrixToken, n: nat) -> Seq<usize>
    decreases n,
{
    if n == 0 || n > toks.len() {
        Seq::empty()
    } else if toks[n - 1] == k {
        positions_upto(toks, k, (n - 1) as nat).push((n - 1) as usize)
    } else {
        positions_upto(toks, k, (n - 1) as nat)
    }
}

/// The number of line breaks among the first `n` items of `toks`.
pub open spec fn linebreaks_upto(toks: Seq<MatrixToken>, n: nat) -> nat
    decreases n,
{
    if n == 0 || n > toks.len() {
        0
    } else if toks[n - 1] == MatrixToken::Linebreak {
        linebreaks_upto(toks, (n - 1) as nat) + 1
    } else {
        linebreaks_upto(toks, (n - 1) as nat)
    }
}

/// The edge positions of a cell when `edges`, else its content positions.
pub open spec fn cell_part(c: CellView, edges: bool) -> Seq<usize> {
    if edges {
        c.1
    } else {
        c.0
    }
}

/// The kind whose positions `cell_part` gives.
pub open spec fn part_kind(edges: bool) -> MatrixToken {
    if edges {
        MatrixToken::Edge
    } else {
        MatrixToken::Node
    }
}

/// The positions of one part of the cells of a row, cell after cell.
pub open spec fn row_parts(row: Seq<CellView>, edges: bool) -> Seq<usize>
    decreases row.len(),
{
    if row.len() == 0 {
        Seq::empty()
    } else {
        row_parts(row.drop_last(), edges) + cell_part(row.last(), edges)
    }
}

/// The positions of one part of the cells of all rows, row after row.
pub open spec fn layout_parts(rows: Seq<Seq<CellView>>, edges: bool) -> Seq<usize>
    decreases rows.len(),
{
    if rows.len() == 0 {
        Seq::empty()
    } else {
        layout_parts(rows.drop_last(), edges) + row_parts(rows.last(), edges)
    }
}

/// What the layout after `n` items has placed so far.
proof fn lemma_layout_upto(toks: Seq<MatrixToken>, n: nat, edges: bool)
    requires
        n <= toks.len(),
    ensures
        ({
            let st = layout_upto(toks, n);
            &&& layout_parts(st.rows, edges) + row_parts(st.row, edges) + cell_part((st.nodes, st.edges), edges)
                == positions_upto(toks, part_kind(edges), n)
            &&& st.rows.len() == linebreaks_upto(toks, n)
        }),
    decreases n,
{
    if n > 0 {
        let m = (n - 1) as nat;
        lemma_layout_upto(toks, m, edges);
        let prev = layout_upto(toks, m);
        let cell = (prev.nodes, prev.edges);
        let st = layout_upto(toks, n);
        match toks[n - 1] {
            MatrixToken::AlignPoint => {
                assert(st.row.drop_last() =~= prev.row);
                assert(cell_part((st.nodes, st.edges), edges) =~= Seq::<usize>::empty());
            },
            MatrixToken::Linebreak => {
                assert(st.rows.drop_last() =~= prev.rows);
                assert(st.rows.last().drop_last() =~= prev.row);
                assert(row_parts(st.row, edges) =~= Seq::<usize>::empty());
                assert(cell_part((st.nodes, st.edges), edges) =~= Seq::<usize>::empty());
            },
            _ => {},
        }
        assert(layout_parts(st.rows, edges) + row_parts(st.row, edges) + cell_part((st.nodes, st.edges), edges)
            =~= positions_upto(toks, part_kind(edges), n));
    }
}

/// The layout partitions the body: read cell by cell and row by row, the
/// cells' content items are exactly the body's content items, and their
/// edge markers exactly its edge markers, each once and in order; and there
/// is one row more than there are line breaks.
pub proof fn law_layout_partitions(toks: Seq<MatrixToken>)
    ensures
        layout_parts(matrix_layout_of(toks), false) == positions_upto(toks, MatrixToken::Node, toks.len()),
        layout_parts(matrix_layout_of(toks), true) == positions_upto(toks, MatrixToken::Edge, toks.len()),
        matrix_layout_of(toks).len() == linebreaks_upto(toks, toks.len()) + 1,
{
    let st = layout_upto(toks, toks.len());
    let res = matrix_layout_of(toks);
    assert(res.drop_last() =~= st.rows);
    assert(res.last().drop_last() =~= st.row);
    lemma_layout_upto(toks, toks.len(), false);
    lemma_layout_upto(toks, toks.len(), true);
    assert(layout_parts(res, false) =~= layout_parts(st.rows, false) + row_parts(st.row, false) + st.nodes);
    assert(layout_parts(res, true) =~= layout_parts(st.rows, true) + row_parts(st.row, true) + st.edges);
}

} // verus!
