use tylax::typst2latex::context::{DocumentWrapperMode, T2LOptions, UnsupportedInfo, UnsupportedMode};
use tylax::typst2latex::extract::{get_page_margin, get_page_numbering, get_page_setup, get_page_size, PageSetup};
use tylax::typst2latex::ir::LatexIr;
use tylax::typst2latex::labels::collect_labels;
use tylax::typst2latex::lower::{Node, PageStyle, TableChild, TableItem, Value};
use tylax::typst2latex::{
    convert_content, finish_conversion, format_diagnostics, ConversionResult, Diagnostic, Severity,
};

fn s(x: &str) -> String {
    x.to_string()
}

fn text(x: &str) -> Node {
    Node::Text(s(x))
}

fn bx(n: Node) -> Box<Node> {
    Box::new(n)
}

fn opts(full_document: bool, unsupported: UnsupportedMode) -> T2LOptions {
    T2LOptions { full_document, unsupported, ..Default::default() }
}

const HEAD: &str = "\\documentclass{article}\n\\usepackage{fontspec}\n\\usepackage{amsmath,amssymb}\n\\usepackage{amsthm}\n\\usepackage{mathtools}\n\\usepackage{stmaryrd}\n\\usepackage{mathpartir}\n\\usepackage{tikz-cd}\n\\usepackage{titlesec}\n\\newfontfamily\\headingfont{Libertinus Sans}\n\\titleformat*{\\section}{\\Large\\bfseries\\headingfont}\n\\titleformat*{\\subsection}{\\large\\bfseries\\headingfont}\n\\titleformat*{\\subsubsection}{\\normalsize\\bfseries\\headingfont}\n\\usepackage{hyperref}\n";

fn no_page() -> PageSetup {
    PageSetup { width: None, height: None, margin: None, numbering: None }
}

fn page(width: Option<Option<&str>>, height: Option<Option<&str>>) -> PageStyle {
    PageStyle { numbering: None, margin: None, width: width.map(|w| w.map(s)), height: height.map(|h| h.map(s)) }
}

fn circle_doc() -> Node {
    Node::Sequence(vec![Node::Other { name: s("circle"), span: None }, Node::Parbreak, text("hi")])
}

#[test]
fn defaults_are_a_bare_body_and_hard_errors() {
    let d = T2LOptions::default();
    assert!(!d.full_document);
    assert_eq!(d.unsupported, UnsupportedMode::Error);
    assert_eq!(d.wrapper, DocumentWrapperMode::Default);
}

#[test]
fn unsupported_policy_error_vs_raw() {
    let doc = circle_doc();
    let err = convert_content(&doc, &opts(true, UnsupportedMode::Error));
    assert!(err.is_err(), "circle should be unsupported under Error mode");
    let raw = convert_content(&doc, &opts(true, UnsupportedMode::Raw)).ok().expect("raw mode should not error").output;
    assert!(raw.contains("[unsupported Typst element: circle]"), "raw mode should emit a visible marker");
}

#[test]
fn error_mode_lists_every_construct() {
    let doc = Node::Sequence(vec![
        Node::Other { name: s("circle"), span: None },
        Node::Other { name: s("polygon"), span: None },
    ]);
    let err = convert_content(&doc, &opts(false, UnsupportedMode::Error)).err().expect("must fail");
    assert_eq!(
        err.message,
        "2 unsupported Typst construct(s) encountered (use --unsupported=raw to emit visible markers instead):\n  - circle at <unknown location>\n  - polygon at <unknown location>\n"
    );
}

#[test]
fn error_mode_lines_carry_location_and_package() {
    let list = vec![UnsupportedInfo { name: s("canvas"), location: Some(s("main.typ:3:5")), package: Some(s("@preview/cetz:0.3.1")) }];
    let err = finish_conversion(LatexIr::Space, &list, &vec![], &T2LOptions::default(), &no_page())
        .err()
        .expect("must fail");
    assert_eq!(
        err.message,
        "1 unsupported Typst construct(s) encountered (use --unsupported=raw to emit visible markers instead):\n  - canvas at main.typ:3:5 [@preview/cetz:0.3.1]\n"
    );
}

#[test]
fn image_mode_is_not_available() {
    let err = convert_content(&circle_doc(), &opts(true, UnsupportedMode::Image)).err().expect("must fail");
    assert_eq!(err.message, "--unsupported=image is not yet implemented; use error or raw");
    // Without unsupported constructs every mode converts.
    assert!(convert_content(&text("ok"), &opts(true, UnsupportedMode::Image)).is_ok());
}

#[test]
fn bodies_alone_without_full_document() {
    let r = convert_content(&text("hi & bye"), &opts(false, UnsupportedMode::Error)).ok().unwrap();
    assert_eq!(r.output, "hi \\& bye");
    assert!(r.warnings.is_empty());
    let bare = T2LOptions { full_document: true, unsupported: UnsupportedMode::Error, wrapper: DocumentWrapperMode::Bare };
    assert_eq!(convert_content(&text("x"), &bare).ok().unwrap().output, "x");
}

#[test]
fn full_documents_are_wrapped() {
    let r = convert_content(&text("hi"), &opts(true, UnsupportedMode::Error)).ok().unwrap();
    assert_eq!(r.output, format!("{}\\begin{{document}}\n\nhi\n\\end{{document}}\n", HEAD));
}

#[test]
fn page_settings_reach_the_preamble() {
    let page = PageStyle {
        numbering: Some(s("Pattern(NumberingPattern { pieces: [(\"\", Arabic)], suffix: \"\", trimmed: false })")),
        margin: Some(Some(s("72pt"))),
        width: None,
        height: None,
    };
    let doc = Node::Styled { child: bx(text("body")), page };
    let r = convert_content(&doc, &opts(true, UnsupportedMode::Error)).ok().unwrap();
    assert_eq!(
        r.output,
        format!(
            "{}\\usepackage[margin=72pt]{{geometry}}\n\\pagenumbering{{arabic}}\n\\begin{{document}}\n\nbody\n\\end{{document}}\n",
            HEAD
        )
    );
}

#[test]
fn roman_numbering_and_uneven_margins_are_left_out() {
    let page = PageStyle { numbering: Some(s("Pattern(LowerRoman)")), margin: Some(None), width: None, height: None };
    let doc = Node::Sequence(vec![Node::Styled { child: bx(text("b")), page }]);
    let r = convert_content(&doc, &opts(true, UnsupportedMode::Error)).ok().unwrap();
    assert_eq!(r.output, format!("{}\\begin{{document}}\n\nb\n\\end{{document}}\n", HEAD));
}

#[test]
fn bibliographies_are_set_up() {
    let doc = Node::Sequence(vec![text("see"), Node::Bibliography(vec![s("refs.bib"), s("refs.bib")])]);
    let r = convert_content(&doc, &opts(true, UnsupportedMode::Error)).ok().unwrap();
    assert_eq!(
        r.output,
        format!(
            "{}\\usepackage[backend=bibtex]{{biblatex}}\n\\addbibresource{{refs.bib}}\n\\begin{{document}}\n\nsee\\printbibliography\n\n\\end{{document}}\n",
            HEAD
        )
    );
}

#[test]
fn document_labels_decide_references() {
    let doc = Node::Sequence(vec![
        Node::Labelled(bx(Node::Heading { level: 1, numbered: true, body: bx(text("Intro")) }), s("intro")),
        Node::Ref(s("intro")),
        Node::Ref(s("knuth")),
    ]);
    let r = convert_content(&doc, &opts(false, UnsupportedMode::Error)).ok().unwrap();
    assert_eq!(r.output, "\\section{Intro}\n\\label{intro}\\ref{intro}\\cite{knuth}");
}

#[test]
fn labels_are_collected_everywhere() {
    let doc = Node::Sequence(vec![
        Node::Labelled(bx(text("a")), s("one")),
        Node::Figure {
            body: bx(Node::Labelled(bx(text("b")), s("two"))),
            caption: Some(bx(Node::Labelled(bx(text("c")), s("three")))),
        },
        Node::Metadata {
            value: Value::Array(vec![Value::Content(bx(Node::Labelled(bx(text("d")), s("four"))))]),
            span: None,
        },
        Node::Labelled(bx(Node::Labelled(bx(text("e")), s("six"))), s("five")),
    ]);
    assert_eq!(collect_labels(&doc), vec![s("one"), s("two"), s("three"), s("four"), s("five"), s("six")]);
    assert!(collect_labels(&text("none")).is_empty());
}

#[test]
fn page_settings_come_from_the_first_setting() {
    let styled = |numbering: Option<&str>, margin: Option<Option<&str>>| Node::Styled {
        child: bx(text("x")),
        page: PageStyle { numbering: numbering.map(s), margin: margin.map(|m| m.map(s)), width: None, height: None },
    };
    let doc = Node::Sequence(vec![text("t"), styled(None, None), styled(Some("A"), Some(None)), styled(Some("B"), Some(Some("1cm")))]);
    assert_eq!(get_page_numbering(&doc), Some(s("A")));
    assert_eq!(get_page_margin(&doc), Some(None));
    // A styled element without a setting does not look inside.
    let nested = Node::Styled {
        child: bx(styled(Some("C"), Some(Some("2cm")))),
        page: PageStyle { numbering: None, margin: None, width: None, height: None },
    };
    assert_eq!(get_page_numbering(&nested), None);
    assert_eq!(get_page_margin(&nested), None);
}

#[test]
fn diagnostics_are_formatted() {
    let diags = vec![
        Diagnostic { severity: Severity::Error, message: s("unknown variable: x"), hints: vec![s("did you mean `y`?")] },
        Diagnostic { severity: Severity::Warning, message: s("unused"), hints: vec![] },
    ];
    assert_eq!(
        format_diagnostics("evaluation", &diags).message,
        "Typst evaluation failed:\n  [Error] unknown variable: x\n    hint: did you mean `y`?\n  [Warning] unused\n"
    );
    assert_eq!(format_diagnostics("parsing", &vec![]).message, "Typst parsing failed:\n");
}

#[test]
fn ok_results_have_no_warnings() {
    let r = ConversionResult::ok(s("out"));
    assert_eq!(r.output, "out");
    assert!(r.warnings.is_empty());
}

#[test]
fn raw_mode_shows_nested_markers() {
    let doc = Node::Sequence(vec![
        Node::ListItem(bx(Node::Other { name: s("circle"), span: None })),
        Node::Table {
            columns: 2,
            children: vec![
                TableChild::Item(TableItem::Cell(text("a"))),
                TableChild::Item(TableItem::Cell(Node::Strong(bx(Node::Other { name: s("polygon"), span: None })))),
            ],
        },
        Node::Figure { body: bx(text("f")), caption: Some(bx(Node::Other { name: s("line"), span: None })) },
    ]);
    let out = convert_content(&doc, &opts(true, UnsupportedMode::Raw)).ok().unwrap().output;
    for name in ["circle", "polygon", "line"] {
        assert!(out.contains(&format!("\\texttt{{[unsupported Typst element: {}]}}", name)), "missing {}", name);
    }
    let err = convert_content(&doc, &opts(true, UnsupportedMode::Error)).err().unwrap();
    assert!(err.message.starts_with("3 unsupported Typst construct(s)"));
}

#[test]
fn root_exports_detection_and_options() {
    assert_eq!(tylax::detect_format("#set page()"), "typst");
    let o = tylax::T2LOptions { full_document: true, ..Default::default() };
    assert_eq!(o.unsupported, tylax::UnsupportedMode::Error);
}

#[test]
fn unnumbered_headings_are_starred() {
    let doc = Node::Heading { level: 1, numbered: false, body: bx(text("Intro")) };
    let r = convert_content(&doc, &opts(false, UnsupportedMode::Raw)).ok().unwrap();
    assert_eq!(r.output, "\\section*{Intro}\n");
    let doc = Node::Heading { level: 2, numbered: true, body: bx(text("Intro")) };
    let r = convert_content(&doc, &opts(false, UnsupportedMode::Raw)).ok().unwrap();
    assert_eq!(r.output, "\\subsection{Intro}\n");
}

#[test]
fn outlines_become_tables_of_contents() {
    let doc = Node::Sequence(vec![Node::Outline, text("x")]);
    let r = convert_content(&doc, &opts(false, UnsupportedMode::Error)).ok().expect("an outline is supported");
    assert_eq!(r.output, "\\tableofcontents\nx");
}

#[test]
fn page_size_reaches_the_preamble() {
    let doc = Node::Styled { child: bx(text("hi")), page: page(Some(Some("200pt")), Some(Some("300pt"))) };
    let r = convert_content(&doc, &opts(true, UnsupportedMode::Raw)).ok().unwrap();
    assert_eq!(
        r.output,
        format!(
            "{}\\usepackage[paperwidth=200pt,paperheight=300pt]{{geometry}}\n\\begin{{document}}\n\nhi\n\\end{{document}}\n",
            HEAD
        )
    );
    let with_margin = Node::Styled {
        child: bx(text("hi")),
        page: PageStyle { numbering: None, margin: Some(Some(s("1in"))), width: None, height: Some(Some(s("10cm"))) },
    };
    let r = convert_content(&with_margin, &opts(true, UnsupportedMode::Raw)).ok().unwrap();
    assert!(r.output.contains("\\usepackage[paperheight=10cm,margin=1in]{geometry}\n"));
}

#[test]
fn the_last_page_size_wins() {
    let doc = Node::Sequence(vec![
        Node::Styled { child: bx(text("a")), page: page(Some(Some("100pt")), None) },
        Node::Styled {
            child: bx(Node::Styled { child: bx(text("b")), page: page(Some(Some("300pt")), None) }),
            page: page(None, Some(Some("50pt"))),
        },
        Node::Styled { child: bx(text("c")), page: page(None, None) },
    ]);
    assert_eq!(get_page_size(&doc), (Some(s("300pt")), Some(s("50pt"))));
    assert_eq!(get_page_size(&text("x")), (None, None));
    let setup = get_page_setup(&doc);
    assert_eq!(setup.width, Some(s("300pt")));
    assert_eq!(setup.height, Some(s("50pt")));
    assert_eq!(setup.margin, None);
    assert_eq!(setup.numbering, None);
}

#[test]
fn theorem_environments_are_declared() {
    let thm = |env: &str| LatexIr::TheoremEnv { env: s(env), title: None, body: Box::new(LatexIr::Text(s("b"))) };
    let body = LatexIr::Sequence(vec![thm("theorem"), thm("lemma"), thm("theorem")]);
    let r = finish_conversion(body, &vec![], &vec![s("refs.bib")], &opts(true, UnsupportedMode::Error), &no_page())
        .ok()
        .unwrap();
    let preamble = r.output.split("\\begin{document}").next().unwrap().to_string();
    assert!(preamble.contains("\\usepackage{amsthm}\n"));
    assert_eq!(
        preamble,
        format!(
            "{}\\newtheorem{{theorem}}{{Theorem}}\n\\newtheorem{{lemma}}{{Lemma}}\n\\usepackage[backend=bibtex]{{biblatex}}\n\\addbibresource{{refs.bib}}\n",
            HEAD
        )
    );
}

#[test]
fn a_page_length_set_to_auto_is_cleared() {
    // `#set page(width: 100pt)` ... `#set page(width: auto)`: no width.
    let doc = Node::Sequence(vec![
        Node::Styled { child: bx(text("A")), page: page(Some(Some("100pt")), None) },
        Node::Styled { child: bx(text("B")), page: page(Some(None), None) },
    ]);
    assert_eq!(get_page_size(&doc), (None, None));
    // A later assignment after `auto` counts again; an unassigned one keeps it.
    let doc = Node::Sequence(vec![
        Node::Styled { child: bx(text("A")), page: page(Some(None), Some(Some("1cm"))) },
        Node::Styled { child: bx(text("B")), page: page(Some(Some("2cm")), None) },
    ]);
    assert_eq!(get_page_size(&doc), (Some(s("2cm")), Some(s("1cm"))));
}

#[test]
fn labelled_page_settings_are_walked() {
    let styled = Node::Styled { child: bx(text("A")), page: page(Some(Some("5cm")), None) };
    let doc = Node::Labelled(bx(Node::Sequence(vec![styled])), s("setup"));
    assert_eq!(get_page_size(&doc), (Some(s("5cm")), None));
}

#[test]
fn full_documents_wrap_the_bare_output() {
    let doc = Node::Sequence(vec![Node::Heading { level: 1, numbered: false, body: bx(text("T")) }, text("x & y")]);
    let bare = convert_content(&doc, &opts(false, UnsupportedMode::Error)).ok().unwrap();
    let full = convert_content(&doc, &opts(true, UnsupportedMode::Error)).ok().unwrap();
    assert!(bare.warnings.is_empty() && full.warnings.is_empty());
    let tail = "\n\\end{document}\n";
    assert!(full.output.ends_with(&format!("{}{}", bare.output, tail)));
    let preamble = &full.output[..full.output.len() - bare.output.len() - tail.len()];
    assert!(preamble.starts_with("\\documentclass{article}\n"));
    assert!(preamble.ends_with("\\begin{document}\n\n"));
    // Both fail together.
    let circle = Node::Other { name: s("circle"), span: None };
    assert!(convert_content(&circle, &opts(false, UnsupportedMode::Error)).is_err());
    assert!(convert_content(&circle, &opts(true, UnsupportedMode::Error)).is_err());
}
