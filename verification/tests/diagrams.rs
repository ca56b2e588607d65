use tylax::typst2latex::context::LowerContext;
use tylax::typst2latex::lower::{lower_content, Node, TableChild, TableItem};
use tylax::typst2latex::lower_fletcher::{
    arrow, dir_delta, grid_rows, index_dir, lower_diagram, mark_option, matrix_rows, tikzcd, Diagram,
    Edge, Fragment, GridEdge, GridNode, MatrixCell,
};
use tylax::typst2latex::lower_math::{MathNode, MathStyle, RealizedMath};
use tylax::typst2latex::edge_ends::{resolve_edge_ends, End, GridItem, Start};
use tylax::typst2latex::matrix_layout::{matrix_layout, MatrixToken};

fn frag(x: &str) -> Fragment {
    let plain = MathStyle { variant: None, bold: false };
    Fragment { math: RealizedMath { parts: vec![(MathNode::Symbol(x.to_string()), plain)] }, span: None }
}

fn edge(dir: Option<&str>, marks: Option<&str>) -> Edge {
    Edge {
        dir: dir.map(|d| d.to_string()),
        marks: marks.map(|m| m.to_string()),
        label: None,
        side_right: false,
        shift: 0,
        bend: None,
        invisible: false,
    }
}

fn cell(node: Option<&str>, edges: Vec<Edge>) -> MatrixCell {
    MatrixCell { nodes: node.map(frag), edges }
}

#[test]
fn mark_options_map_arrow_styles() {
    let m = |x: Option<&str>| mark_option(&x.map(|s| s.to_string()));
    assert_eq!(m(None), None);
    assert_eq!(m(Some("->")), None);
    assert_eq!(m(Some("-->")), None);
    assert_eq!(m(Some("<-")), Some("leftarrow"));
    assert_eq!(m(Some("<->")), Some("leftrightarrow"));
    assert_eq!(m(Some("=")), Some("equal"));
    assert_eq!(m(Some("==")), Some("equal"));
    assert_eq!(m(Some("|->")), Some("mapsto"));
    assert_eq!(m(Some(">->")), Some("hook"));
    assert_eq!(m(Some("hook->")), Some("hook"));
    assert_eq!(m(Some("->>")), Some("twoheadrightarrow"));
    assert_eq!(m(Some("~>")), None);
}

#[test]
fn direction_strings_count_steps() {
    assert_eq!(dir_delta("r"), (1, 0));
    assert_eq!(dir_delta("dr"), (1, 1));
    assert_eq!(dir_delta("uul"), (-1, -2));
    assert_eq!(dir_delta("rl"), (0, 0));
    assert_eq!(dir_delta("x"), (0, 0));
}

#[test]
fn index_directions() {
    assert_eq!(index_dir(2, 1), "drr");
    assert_eq!(index_dir(-1, -2), "uul");
    assert_eq!(index_dir(0, 0), "r");
}

#[test]
fn directions_round_trip() {
    for (dc, dr) in [(1i64, 0i64), (0, 1), (-3, 2), (2, -2), (0, -1), (-1, 0)] {
        assert_eq!(dir_delta(&index_dir(dc, dr)), (dc, dr));
    }
    assert_eq!(dir_delta(&index_dir(0, 0)), (1, 0));
}

#[test]
fn arrows_carry_options() {
    let mut ctx = LowerContext::new(vec![]);
    let mut e = edge(Some("r"), Some("|->"));
    e.label = Some(frag("f"));
    e.side_right = true;
    assert_eq!(arrow("r", &e, &mut ctx), "\\arrow[r, mapsto, \"{f}\"']");
    let mut bent = edge(None, None);
    bent.bend = Some((true, 30));
    bent.shift = 1;
    assert_eq!(arrow("d", &bent, &mut ctx), "\\arrow[d, bend left=30]");
    let mut shifted = edge(None, Some("<-"));
    shifted.shift = -1;
    shifted.invisible = true;
    assert_eq!(arrow("ur", &shifted, &mut ctx), "\\arrow[ur, leftarrow, draw=none, shift left]");
    let mut right = edge(None, None);
    right.bend = Some((false, 2));
    assert_eq!(arrow("l", &right, &mut ctx), "\\arrow[l, bend right=2]");
}

#[test]
fn matrix_rows_pad_ragged_rows() {
    let rows = vec![
        vec![cell(Some("A"), vec![edge(Some("r"), Some("->"))]), cell(Some("B"), vec![edge(None, None)])],
        vec![cell(Some("C"), vec![])],
    ];
    let mut ctx = LowerContext::new(vec![]);
    assert_eq!(matrix_rows(&rows, &mut ctx), "A \\arrow[r] & B \\arrow[r] \\\\\nC & {}");
}

#[test]
fn empty_matrix_cells_get_invisible_nodes() {
    let rows = vec![vec![cell(None, vec![edge(Some("d"), None)]), cell(Some(" "), vec![])]];
    let mut ctx = LowerContext::new(vec![]);
    assert_eq!(matrix_rows(&rows, &mut ctx), "{} \\arrow[d] & {}");
}

#[test]
fn grid_rows_route_by_index_delta() {
    let plain = edge(None, None);
    let nodes = vec![
        GridNode { row: 0, col: 0, body: frag("A") },
        GridNode { row: 1, col: 1, body: frag("B") },
    ];
    let edges = vec![
        GridEdge { from: (0, 0), to: (1, 1), edge: plain },
        GridEdge { from: (1, 1), to: (1, 1), edge: edge(None, None) },
        GridEdge { from: (1, 1), to: (0, 0), edge: edge(None, Some("=")) },
    ];
    let mut ctx = LowerContext::new(vec![]);
    assert_eq!(
        grid_rows(2, 2, &nodes, &edges, &mut ctx),
        "A \\arrow[dr] & {} \\\\\n{} & B \\arrow[ul, equal]"
    );
}

#[test]
fn later_nodes_replace_earlier_ones() {
    let nodes = vec![GridNode { row: 0, col: 0, body: frag("A") }, GridNode { row: 0, col: 0, body: frag("Z") }];
    let mut ctx = LowerContext::new(vec![]);
    assert_eq!(grid_rows(1, 1, &nodes, &vec![], &mut ctx), "Z");
}

#[test]
fn diagrams_are_centered_outside_tables() {
    let d = Diagram::Matrix(vec![vec![cell(Some("A"), vec![])]]);
    let mut ctx = LowerContext::new(vec![]);
    assert_eq!(
        lower_diagram(&d, &mut ctx).render(),
        "\n\\begin{center}\n\\begin{tikzcd}\nA\n\\end{tikzcd}\n\\end{center}\n"
    );
    assert_eq!(tikzcd("X".to_string(), false).render(), "\n\\begin{tikzcd}\nX\n\\end{tikzcd}\n");
}

#[test]
fn diagrams_in_table_cells_are_bare() {
    let d = Diagram::Grid { rows: 1, cols: 1, nodes: vec![GridNode { row: 0, col: 0, body: frag("A") }], edges: vec![] };
    let table = Node::Table { columns: 1, children: vec![TableChild::Item(TableItem::Cell(Node::Diagram(d)))] };
    let mut ctx = LowerContext::new(vec![]);
    assert_eq!(
        lower_content(&table, &mut ctx).render(),
        "\\begin{tabular}{l}\n\\hline\n\n\\begin{tikzcd}\nA\n\\end{tikzcd}\n \\\\\n\\hline\n\\end{tabular}\n"
    );
}

fn layout(toks: &[MatrixToken]) -> Vec<Vec<(Vec<usize>, Vec<usize>)>> {
    matrix_layout(&toks.to_vec())
        .into_iter()
        .map(|row| row.into_iter().map(|c| (c.nodes, c.edges)).collect())
        .collect()
}

#[test]
fn matrix_bodies_split_into_cells_and_rows() {
    // A edge("r") & B \ C & D
    let (n, e, a, l) = (MatrixToken::Node, MatrixToken::Edge, MatrixToken::AlignPoint, MatrixToken::Linebreak);
    let toks = [n, e, a, n, l, n, a, n, n];
    assert_eq!(
        layout(&toks),
        vec![
            vec![(vec![0], vec![1]), (vec![3], vec![])],
            vec![(vec![5], vec![]), (vec![7, 8], vec![])],
        ]
    );
}

#[test]
fn empty_bodies_and_trailing_breaks_give_empty_cells() {
    assert_eq!(layout(&[]), vec![vec![(vec![], vec![])]]);
    assert_eq!(
        layout(&[MatrixToken::AlignPoint, MatrixToken::Linebreak]),
        vec![vec![(vec![], vec![]), (vec![], vec![])], vec![(vec![], vec![])]]
    );
}

fn named_node(name: Option<&str>) -> GridItem {
    GridItem::Node { name: name.map(|n| n.to_string()) }
}

fn grid_edge(from: bool, from_name: Option<&str>, to: bool, to_name: Option<&str>, dir: bool) -> GridItem {
    GridItem::Edge {
        from,
        from_name: from_name.map(|n| n.to_string()),
        to,
        to_name: to_name.map(|n| n.to_string()),
        dir,
    }
}

#[test]
fn edge_ends_by_coordinate_name_and_direction() {
    let items = vec![
        named_node(Some("a")),
        grid_edge(true, None, true, None, false),
        grid_edge(false, Some("b"), false, Some("a"), false),
        named_node(Some("b")),
        grid_edge(true, None, false, None, true),
        grid_edge(false, Some("a"), false, Some("missing"), false),
        named_node(Some("a")),
    ];
    let ends = resolve_edge_ends(&items);
    assert_eq!(ends.len(), 7);
    assert_eq!(ends[0], None);
    assert_eq!(ends[1], Some((Start::Given, End::Given)));
    // A name refers to the last node that carries it.
    assert_eq!(ends[2], Some((Start::Node(3), End::Node(6))));
    assert_eq!(ends[4], Some((Start::Given, End::Step)));
    // An unknown end name without a direction drops the edge.
    assert_eq!(ends[5], None);
}

#[test]
fn implicit_edges_join_neighbouring_nodes_and_dir_only_edges_are_dropped() {
    let items = vec![
        named_node(None),
        grid_edge(false, None, false, None, false),
        grid_edge(false, None, false, None, true),
        named_node(None),
        grid_edge(false, None, false, None, false),
    ];
    let ends = resolve_edge_ends(&items);
    assert_eq!(ends[1], Some((Start::Node(0), End::Node(3))));
    assert_eq!(ends[2], None);
    // No node after it: dropped.
    assert_eq!(ends[4], None);
}

#[test]
fn directions_are_vertical_steps_then_horizontal_ones() {
    assert_eq!(index_dir(2, -3), "uuurr");
    assert_eq!(index_dir(-1, 1), "dl");
    assert_eq!(index_dir(0, 0), "r");
    assert_eq!(dir_delta(&index_dir(-4, 2)), (-4, 2));
}
