use tylax::typst2latex::context::LowerContext;
use tylax::typst2latex::ir::LatexIr;
use tylax::typst2latex::lower::{lower_content, Node};
use tylax::typst2latex::lower_math::{
    delimiter_of, lower_equation, lower_math_fragment, render_math, AccentKind, Equation, MathNode,
    MathStyle, MathVariant, RealizedMath,
};
use tylax::typst2latex::utils::unicode_to_latex;

const PLAIN: MathStyle = MathStyle { variant: None, bold: false };

fn sym(x: &str) -> MathNode {
    MathNode::Symbol(x.to_string())
}

fn bx(n: MathNode) -> Box<MathNode> {
    Box::new(n)
}

fn realized(nodes: Vec<MathNode>) -> RealizedMath {
    RealizedMath { parts: nodes.into_iter().map(|n| (n, PLAIN)).collect() }
}

fn math(nodes: Vec<MathNode>) -> String {
    let mut ctx = LowerContext::new(vec![]);
    lower_math_fragment(&realized(nodes), &mut ctx, &None)
}

#[test]
fn inline_equations_use_ensuremath() {
    let eq = Equation { block: false, body: realized(vec![sym("x")]), span: None };
    let mut ctx = LowerContext::new(vec![]);
    match lower_equation(&eq, &mut ctx) {
        LatexIr::Math(m) => assert_eq!(m, "\\ensuremath{x}"),
        other => panic!("expected math, got {:?}", other),
    }
}

#[test]
fn block_equations_use_display_math() {
    let eq = Equation { block: true, body: realized(vec![MathNode::Frac(bx(sym("1")), bx(sym("2")))]), span: None };
    let mut ctx = LowerContext::new(vec![]);
    assert_eq!(lower_content(&Node::Equation(eq), &mut ctx).render(), "\\[\n\\frac{1}{2}\n\\]");
}

#[test]
fn aligned_block_equations_use_aligned() {
    let body = realized(vec![
        sym("a"),
        MathNode::AlignPoint,
        sym("="),
        sym("b"),
        MathNode::Linebreak,
        MathNode::AlignPoint,
        sym("="),
        sym("c"),
    ]);
    let eq = Equation { block: true, body, span: None };
    let mut ctx = LowerContext::new(vec![]);
    assert_eq!(
        lower_content(&Node::Equation(eq), &mut ctx).render(),
        "\\[\n\\begin{aligned}\na&=b \\\\ &=c\n\\end{aligned}\n\\]"
    );
}

#[test]
fn render_math_reports_alignment() {
    let mut ctx = LowerContext::new(vec![]);
    let (text, aligns) = render_math(&realized(vec![sym("x"), MathNode::Space, sym("y")]), &mut ctx, &None);
    assert_eq!(text, "x y");
    assert!(!aligns);
    let (_, aligns) = render_math(&realized(vec![MathNode::Linebreak]), &mut ctx, &None);
    assert!(aligns);
}

#[test]
fn greek_and_operators_map_to_commands() {
    assert_eq!(math(vec![sym("\u{3b1}"), sym("+"), sym("\u{3b2}")]), "\\alpha +\\beta");
    assert_eq!(math(vec![sym("\u{2211}")]), "\\sum");
    assert_eq!(math(vec![sym("\u{2212}")]), "-");
    assert_eq!(math(vec![sym("x\u{2062}y")]), "xy");
    assert_eq!(math(vec![sym("{"), sym("}")]), "\\{\\}");
    assert_eq!(unicode_to_latex('\u{3b1}'), Some("\\alpha"));
    assert_eq!(unicode_to_latex('x'), None);
}

#[test]
fn scripts_attach_in_order() {
    let attach = MathNode::Attach {
        base: bx(sym("x")),
        t: Some(bx(sym("2"))),
        b: Some(bx(sym("i"))),
        tl: None,
        bl: None,
        tr: None,
        br: None,
    };
    assert_eq!(math(vec![attach]), "{x}_{i}^{2}");
    let pre = MathNode::Attach {
        base: bx(sym("C")),
        t: None,
        b: None,
        tl: Some(bx(sym("n"))),
        bl: Some(bx(sym("k"))),
        tr: None,
        br: None,
    };
    assert_eq!(math(vec![pre]), "{}^{n}_{k}{C}");
}

#[test]
fn roots_fractions_and_operators() {
    assert_eq!(math(vec![MathNode::Root { index: Some(bx(sym("3"))), radicand: bx(sym("x")) }]), "\\sqrt[3]{x}");
    assert_eq!(math(vec![MathNode::Root { index: None, radicand: bx(sym("x")) }]), "\\sqrt{x}");
    assert_eq!(math(vec![MathNode::Op(bx(MathNode::Text("sin".to_string())))]), "\\operatorname{sin}");
    assert_eq!(math(vec![sym("f"), MathNode::Primes(2)]), "f''");
}

#[test]
fn left_right_groups_use_delimiters() {
    let lr = MathNode::Lr(vec![sym("("), sym("x"), sym(")")]);
    assert_eq!(math(vec![lr]), "\\left( x \\right)");
    let unbalanced = MathNode::Lr(vec![sym("x"), sym(")")]);
    assert_eq!(math(vec![unbalanced]), "x)");
    assert_eq!(delimiter_of(&sym("{")), Some("\\{".to_string()));
    assert_eq!(delimiter_of(&sym("(")), Some("(".to_string()));
    assert_eq!(delimiter_of(&sym("ab")), None);
}

#[test]
fn accents_take_annotations() {
    let brace = MathNode::Accent { kind: AccentKind::Overbrace, body: bx(sym("x")), annotation: Some(bx(sym("n"))) };
    assert_eq!(math(vec![brace]), "\\overbrace{x}^{n}");
    let under = MathNode::Accent { kind: AccentKind::Underbrace, body: bx(sym("y")), annotation: Some(bx(sym("m"))) };
    assert_eq!(math(vec![under]), "\\underbrace{y}_{m}");
    let line = MathNode::Accent { kind: AccentKind::Overline, body: bx(sym("z")), annotation: Some(bx(sym("a"))) };
    assert_eq!(math(vec![line]), "\\overline{z}");
    let shell = MathNode::Accent { kind: AccentKind::Undershell, body: bx(sym("w")), annotation: None };
    assert_eq!(math(vec![shell]), "\\underparen{w}");
}

#[test]
fn styles_select_alphabets() {
    let bb = MathNode::Styled(MathStyle { variant: Some(MathVariant::DoubleStruck), bold: false }, bx(sym("R")));
    assert_eq!(math(vec![bb]), "\\mathbb{R}");
    let bold = MathNode::Styled(MathStyle { variant: None, bold: true }, bx(sym("v")));
    assert_eq!(math(vec![bold]), "\\mathbf{v}");
    let cal = MathNode::Styled(MathStyle { variant: Some(MathVariant::Chancery), bold: true }, bx(sym("A")));
    assert_eq!(math(vec![cal]), "\\mathcal{A}");
}

#[test]
fn text_raw_and_kerns() {
    assert_eq!(math(vec![MathNode::Text("d_x".to_string())]), "d\\_x");
    assert_eq!(math(vec![MathNode::Raw("a\\b".to_string())]), "\\mathtt{a\\backslash b}");
    assert_eq!(math(vec![sym("a"), MathNode::Kern(Some("-3".to_string())), sym("b")]), "a \\mkern-3mu b");
    assert_eq!(math(vec![sym("a"), MathNode::Kern(None), sym("b")]), "ab");
    assert_eq!(math(vec![MathNode::Hidden, MathNode::Group(Some(bx(sym("g")))), MathNode::Group(None)]), "g");
}

#[test]
fn unknown_math_is_marked_and_recorded() {
    let eq = Equation { block: false, body: realized(vec![sym("x"), MathNode::Unknown("cancel".to_string())]), span: None };
    let mut ctx = LowerContext::new(vec![]);
    let out = lower_content(&Node::Equation(eq), &mut ctx).render();
    assert_eq!(out, "\\ensuremath{x \\mathrm{[?cancel]}}");
    assert_eq!(ctx.unsupported.len(), 1);
    assert_eq!(ctx.unsupported[0].name, "math.cancel");
}
