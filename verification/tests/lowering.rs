use tylax::typst2latex::context::{LowerContext, PackageSpecInfo, SpanInfo};
use tylax::typst2latex::ir::LatexIr;
use tylax::typst2latex::lower::{
    lower_content, FootnoteBody, Node, PageStyle, StackChild, TableChild, TableItem, Value,
};

fn s(x: &str) -> String {
    x.to_string()
}

fn text(x: &str) -> Node {
    Node::Text(s(x))
}

fn bx(n: Node) -> Box<Node> {
    Box::new(n)
}

fn lower(n: &Node) -> (String, LowerContext) {
    let mut ctx = LowerContext::new(vec![]);
    let ir = lower_content(n, &mut ctx);
    (ir.render(), ctx)
}

fn lower_with_labels(n: &Node, labels: &[&str]) -> String {
    let mut ctx = LowerContext::new(labels.iter().map(|l| s(l)).collect());
    lower_content(n, &mut ctx).render()
}

fn dict(entries: Vec<(&str, Value)>) -> Value {
    Value::Dict(entries.into_iter().map(|(k, v)| (s(k), v)).collect())
}

fn content(n: Node) -> Value {
    Value::Content(bx(n))
}

#[test]
fn text_is_escaped() {
    assert_eq!(lower(&text("50% & more")).0, "50\\% \\& more");
}

#[test]
fn list_items_gather_into_one_list() {
    let n = Node::Sequence(vec![
        Node::ListItem(bx(text("a"))),
        Node::Space,
        Node::ListItem(bx(text("b"))),
        text("after"),
    ]);
    assert_eq!(lower(&n).0, "\\begin{itemize}\n\\item a\n\\item b\n\\end{itemize}\nafter");
}

#[test]
fn switching_list_kind_starts_a_new_list() {
    let n = Node::Sequence(vec![
        Node::ListItem(bx(text("a"))),
        Node::EnumItem(bx(text("b"))),
        Node::EnumItem(bx(text("c"))),
    ]);
    assert_eq!(
        lower(&n).0,
        "\\begin{itemize}\n\\item a\n\\end{itemize}\n\\begin{enumerate}\n\\item b\n\\item c\n\\end{enumerate}\n"
    );
}

#[test]
fn term_items_gather_as_bullets() {
    let n = Node::Sequence(vec![Node::TermItem(bx(text("t"))), Node::Parbreak]);
    assert_eq!(lower(&n).0, "\\begin{itemize}\n\\item t\n\\end{itemize}\n\n\n");
}

#[test]
fn labelled_elements_emit_a_label() {
    let n = Node::Labelled(bx(Node::Heading { level: 1, numbered: true, body: bx(text("Intro")) }), s("sec:intro"));
    assert_eq!(lower(&n).0, "\\section{Intro}\n\\label{sec:intro}");
}

#[test]
fn references_to_defined_labels_become_refs() {
    let n = Node::Ref(s("sec:intro"));
    assert_eq!(lower_with_labels(&n, &["sec:intro"]), "\\ref{sec:intro}");
    assert_eq!(lower_with_labels(&n, &["other"]), "\\cite{sec:intro}");
}

#[test]
fn citations_render_keys() {
    assert_eq!(lower(&Node::Cite(s("knuth"))).0, "\\cite{knuth}");
    assert_eq!(lower(&Node::CiteGroup(vec![s("a"), s("b")])).0, "\\cite{a,b}");
}

#[test]
fn bibliography_resources_are_not_repeated() {
    let n = Node::Sequence(vec![
        Node::Bibliography(vec![s("refs.bib"), s("refs.bib"), s("more.bib")]),
        Node::Bibliography(vec![s("more.bib"), s("last.bib")]),
    ]);
    let (out, ctx) = lower(&n);
    assert_eq!(out, "\\printbibliography\n\\printbibliography\n");
    assert_eq!(ctx.bib_resources, vec![s("refs.bib"), s("more.bib"), s("last.bib")]);
}

#[test]
fn tables_are_cut_into_rows() {
    let cells: Vec<TableChild> =
        ["a", "b", "c", "d", "e"].iter().map(|c| TableChild::Item(TableItem::Cell(text(c)))).collect();
    let n = Node::Table { columns: 2, children: cells };
    let mut ctx = LowerContext::new(vec![]);
    match lower_content(&n, &mut ctx) {
        LatexIr::Table { cols, rows } => {
            assert_eq!(cols, 2);
            assert_eq!(rows.iter().map(|r| r.len()).collect::<Vec<_>>(), vec![2, 2, 1]);
        }
        other => panic!("expected a table, got {:?}", other),
    }
    assert!(!ctx.in_table_cell);
}

#[test]
fn table_headers_footers_and_lines() {
    let n = Node::Table {
        columns: 0,
        children: vec![
            TableChild::Header(vec![TableItem::Cell(text("H")), TableItem::Other]),
            TableChild::Item(TableItem::Other),
            TableChild::Item(TableItem::Cell(text("x"))),
            TableChild::Footer(vec![TableItem::Cell(text("F"))]),
        ],
    };
    assert_eq!(lower(&n).0, "\\begin{tabular}{l}\n\\hline\nH \\\\\nx \\\\\nF \\\\\n\\hline\n\\end{tabular}\n");
}

#[test]
fn unsupported_elements_are_recorded_and_marked() {
    let span = SpanInfo {
        path: s("main.typ"),
        package: Some(PackageSpecInfo { namespace: s("preview"), name: s("cetz"), version: s("0.3.1") }),
        line_col: Some((2, 4)),
    };
    let n = Node::Sequence(vec![
        Node::Other { name: s("circle"), span: None },
        Node::Other { name: s("canvas"), span: Some(span) },
    ]);
    let (out, ctx) = lower(&n);
    assert_eq!(
        out,
        "\\texttt{[unsupported Typst element: circle]}\\texttt{[unsupported Typst element: canvas]}"
    );
    assert_eq!(ctx.unsupported.len(), 2);
    assert_eq!(ctx.unsupported[0].name, "circle");
    assert_eq!(ctx.unsupported[0].location, None);
    assert_eq!(ctx.unsupported[0].package, None);
    assert_eq!(ctx.unsupported[1].name, "canvas");
    assert_eq!(ctx.unsupported[1].location, Some(s("main.typ:3:5")));
    assert_eq!(ctx.unsupported[1].package, Some(s("@preview/cetz:0.3.1")));
}

#[test]
fn unknown_positions_give_the_path() {
    let span = SpanInfo { path: s("lib/util.typ"), package: None, line_col: None };
    let (_, ctx) = lower(&Node::Other { name: s("path"), span: Some(span) });
    assert_eq!(ctx.unsupported[0].location, Some(s("lib/util.typ")));
}

#[test]
fn theorion_frames_become_theorem_environments() {
    let frame = Node::Metadata {
        value: dict(vec![
            ("identifier", Value::Str(s("thm-1"))),
            ("kind", Value::Str(s("theorem"))),
            ("title", Value::Str(s("Main"))),
            ("body", content(text("Body"))),
        ]),
        span: None,
    };
    let body = Node::Sequence(vec![Node::Labelled(bx(frame), s("theorion-frame-metadata")), text("boxed")]);
    let n = Node::Figure { body: bx(body), caption: None };
    let (out, ctx) = lower(&n);
    assert_eq!(out, "\\begin{theorem}[Main]\nBody\n\\end{theorem}\n");
    assert!(ctx.unsupported.is_empty());
}

#[test]
fn theorion_titles_may_be_content_or_absent() {
    let frame = |title: Value| Node::Metadata {
        value: dict(vec![
            ("identifier", Value::Int(1)),
            ("kind", Value::Str(s("lemma"))),
            ("title", title),
            ("body", content(text("B"))),
        ]),
        span: None,
    };
    let fig = |title: Value| Node::Figure { body: bx(frame(title)), caption: None };
    assert_eq!(lower(&fig(content(Node::Emph(bx(text("T")))))).0, "\\begin{lemma}[\\emph{T}]\nB\n\\end{lemma}\n");
    assert_eq!(lower(&fig(Value::Str(s("")))).0, "\\begin{lemma}\nB\n\\end{lemma}\n");
    assert_eq!(lower(&fig(Value::Nothing)).0, "\\begin{lemma}\nB\n\\end{lemma}\n");
}

#[test]
fn figures_without_frames_keep_body_and_caption() {
    let n = Node::Figure { body: bx(text("img")), caption: Some(bx(text("Cap"))) };
    assert_eq!(lower(&n).0, "\\begin{figure}[htbp]\n\\centering\nimg\n\\caption{Cap}\n\\end{figure}\n");
    // A frame without a content body is no theorem.
    let frame = Node::Metadata {
        value: dict(vec![
            ("identifier", Value::Int(1)),
            ("kind", Value::Str(s("theorem"))),
            ("body", Value::Str(s("not content"))),
        ]),
        span: None,
    };
    let fig = Node::Figure { body: bx(frame), caption: None };
    let (out, ctx) = lower(&fig);
    assert_eq!(out, "\\begin{figure}[htbp]\n\\centering\n\\texttt{[unsupported Typst element: metadata]}\n\\end{figure}\n");
    assert_eq!(ctx.unsupported.len(), 1);
}

#[test]
fn curryst_rules_become_inference_rules() {
    let rule = Node::Metadata {
        value: dict(vec![
            ("type", Value::Str(s("curryst-rule"))),
            ("premises", Value::Array(vec![content(text("A")), Value::Int(3), content(text("B"))])),
            ("conclusion", content(text("C"))),
        ]),
        span: None,
    };
    assert_eq!(lower(&rule).0, "\\inferrule{A \\\\ B}{C}");
}

#[test]
fn curryst_rule_sets_and_proof_trees() {
    let set = Node::Metadata {
        value: dict(vec![
            ("type", Value::Str(s("curryst-rule-set"))),
            ("trees", Value::Array(vec![content(text("X")), content(text("Y"))])),
        ]),
        span: None,
    };
    assert_eq!(lower(&set).0, "\\begin{mathpar}\nX\n\nY\n\\end{mathpar}\n");
    let tree = Node::Metadata {
        value: dict(vec![("type", Value::Str(s("curryst-prooftree"))), ("rule", content(text("R")))]),
        span: None,
    };
    assert_eq!(lower(&tree).0, "R");
}

#[test]
fn foreign_metadata_is_unsupported() {
    let other = Node::Metadata { value: dict(vec![("type", Value::Str(s("something-else")))]), span: None };
    let (out, ctx) = lower(&other);
    assert_eq!(out, "\\texttt{[unsupported Typst element: metadata]}");
    assert_eq!(ctx.unsupported.len(), 1);
    assert_eq!(ctx.unsupported[0].name, "metadata");
    let malformed = Node::Metadata {
        value: dict(vec![("type", Value::Str(s("curryst-rule"))), ("premises", Value::Nothing)]),
        span: None,
    };
    assert_eq!(lower(&malformed).0, "\\texttt{[unsupported Typst element: metadata]}");
}

#[test]
fn stacks_break_lines_between_blocks() {
    let n = Node::Stack(vec![
        StackChild::Block(text("a")),
        StackChild::Spacing,
        StackChild::Block(text("b")),
        StackChild::Block(text("c")),
    ]);
    assert_eq!(lower(&n).0, "a \\\\ b \\\\ c");
    assert_eq!(lower(&Node::Stack(vec![StackChild::Spacing])).0, "");
}

#[test]
fn footnotes_and_marks() {
    assert_eq!(lower(&Node::Footnote(FootnoteBody::Content(bx(text("n"))))).0, "\\footnote{n}");
    assert_eq!(lower(&Node::Footnote(FootnoteBody::Reference)).0, "\\footnotemark");
}

#[test]
fn leaves_and_wrappers() {
    assert_eq!(lower(&Node::Raw { text: s("a|b"), lang: None }).0, "\\verb|a\\|b|");
    assert_eq!(lower(&Node::SmartQuote(true)).0, "\"");
    assert_eq!(lower(&Node::HSpace).0, " ");
    assert_eq!(lower(&Node::StateUpdate).0, "");
    assert_eq!(lower(&Node::Symbol(s("&"))).0, "\\&");
    assert_eq!(lower(&Node::Strong(bx(text("b")))).0, "\\textbf{b}");
    assert_eq!(lower(&Node::Emph(bx(text("e")))).0, "\\emph{e}");
    assert_eq!(lower(&Node::Link(bx(text("site")))).0, "\\href{}{site}");
    assert_eq!(lower(&Node::Block(Some(bx(text("k"))))).0, "k");
    assert_eq!(lower(&Node::Block(None)).0, "");
    assert_eq!(lower(&Node::Rect(Some(bx(text("r"))))).0, "r");
    assert_eq!(lower(&Node::Boxed(Some(bx(text("x"))))).0, "x");
    assert_eq!(lower(&Node::Boxed(None)).0, "");
    assert_eq!(lower(&Node::Align(bx(text("al")))).0, "al");
    let styled = Node::Styled { child: bx(text("s")), page: PageStyle { numbering: None, margin: None, width: None, height: None } };
    assert_eq!(lower(&styled).0, "s");
}

#[test]
fn resources_named_in_cells_and_figures_are_kept_once() {
    let n = Node::Sequence(vec![
        Node::Bibliography(vec![s("a.bib")]),
        Node::Table {
            columns: 1,
            children: vec![TableChild::Item(TableItem::Cell(Node::Bibliography(vec![s("b.bib"), s("a.bib")])))],
        },
        Node::Figure { body: bx(Node::Bibliography(vec![s("c.bib")])), caption: Some(bx(Node::Bibliography(vec![s("b.bib")]))) },
    ]);
    let (_, ctx) = lower(&n);
    assert_eq!(ctx.bib_resources, vec![s("a.bib"), s("b.bib"), s("c.bib")]);
}

#[test]
fn earlier_records_are_kept() {
    let mut ctx = LowerContext::new(vec![]);
    lower_content(&Node::Other { name: s("first"), span: None }, &mut ctx);
    lower_content(&Node::Sequence(vec![text("x"), Node::Other { name: s("second"), span: None }]), &mut ctx);
    let names: Vec<&str> = ctx.unsupported.iter().map(|u| u.name.as_str()).collect();
    assert_eq!(names, vec!["first", "second"]);
}

#[test]
fn items_never_stand_alone() {
    let n = Node::Sequence(vec![
        text("intro"),
        Node::EnumItem(bx(text("one"))),
        Node::Space,
        Node::EnumItem(bx(text("two"))),
        Node::Parbreak,
        Node::ListItem(bx(text("x"))),
    ]);
    let mut ctx = LowerContext::new(vec![]);
    match lower_content(&n, &mut ctx) {
        LatexIr::Sequence(children) => {
            assert!(children.iter().all(|c| !matches!(c, LatexIr::Item(_))));
            assert_eq!(children.len(), 4);
            assert!(matches!(children[1], LatexIr::NumberedList(ref items) if items.len() == 2));
            assert!(matches!(children[3], LatexIr::List(ref items) if items.len() == 1));
        }
        other => panic!("expected a sequence, got {:?}", other),
    }
}
