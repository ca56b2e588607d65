use tylax::typst2latex::ir::{escape_text, LatexIr};

fn text(s: &str) -> LatexIr {
    LatexIr::Text(s.to_string())
}

fn bx(ir: LatexIr) -> Box<LatexIr> {
    Box::new(ir)
}

#[test]
fn escapes_reserved_characters() {
    assert_eq!(escape_text("a_b & c% $5 #1 {x}"), "a\\_b \\& c\\% \\$5 \\#1 \\{x\\}");
    assert_eq!(escape_text("~^\\"), "\\textasciitilde \\textasciicircum \\textbackslash ");
}

#[test]
fn translates_symbols_and_drops_selectors() {
    assert_eq!(escape_text("\u{2705}\u{FE0F} done\u{2026}"), "\\checkmark{} done\\ldots{}");
    assert_eq!(escape_text("\u{2714}\u{2713}"), "\\checkmark{}\\checkmark{}");
}

#[test]
fn escaping_is_per_character() {
    let (a, b) = ("x_1 & ", "50% ~ \u{2026}");
    let joined = format!("{}{}", a, b);
    assert_eq!(escape_text(&joined), format!("{}{}", escape_text(a), escape_text(b)));
}

#[test]
fn renders_headings_by_level() {
    let h = |level: usize| LatexIr::Heading { level, numbered: true, content: bx(text("T")) }.render();
    assert_eq!(h(1), "\\section{T}\n");
    assert_eq!(h(2), "\\subsection{T}\n");
    assert_eq!(h(3), "\\subsubsection{T}\n");
    assert_eq!(h(4), "\\paragraph{T}\n");
    assert_eq!(h(7), "\\subparagraph{T}\n");
}

#[test]
fn renders_unnumbered_headings_starred() {
    let h = |level: usize| LatexIr::Heading { level, numbered: false, content: bx(text("T")) }.render();
    assert_eq!(h(1), "\\section*{T}\n");
    assert_eq!(h(2), "\\subsection*{T}\n");
    assert_eq!(h(4), "\\paragraph*{T}\n");
}

#[test]
fn renders_lists() {
    let list = LatexIr::List(vec![LatexIr::Item(bx(text("a"))), LatexIr::Item(bx(text("b")))]);
    assert_eq!(list.render(), "\\begin{itemize}\n\\item a\n\\item b\n\\end{itemize}\n");
    let enumerate = LatexIr::NumberedList(vec![LatexIr::Item(bx(text("x")))]);
    assert_eq!(enumerate.render(), "\\begin{enumerate}\n\\item x\n\\end{enumerate}\n");
}

#[test]
fn renders_raw_inline_and_block() {
    assert_eq!(LatexIr::Raw("a|b".to_string(), None).render(), "\\verb|a\\|b|");
    assert_eq!(
        LatexIr::Raw("fn main() {}\nok".to_string(), Some("rust".to_string())).render(),
        "\\begin{verbatim}\nfn main() {}\nok\n\\end{verbatim}\n"
    );
}

#[test]
fn renders_links() {
    assert_eq!(
        LatexIr::Link("https://typst.app".to_string(), Some(bx(text("Typst")))).render(),
        "\\href{https://typst.app}{Typst}"
    );
    assert_eq!(LatexIr::Link("https://x.org".to_string(), None).render(), "\\url{https://x.org}");
}

#[test]
fn renders_simple_leaves() {
    assert_eq!(LatexIr::SmartQuote(true).render(), "\"");
    assert_eq!(LatexIr::SmartQuote(false).render(), "\"");
    assert_eq!(LatexIr::Space.render(), " ");
    assert_eq!(LatexIr::Parbreak.render(), "\n\n");
    assert_eq!(LatexIr::Latex("\\LaTeX{}".to_string()).render(), "\\LaTeX{}");
    assert_eq!(LatexIr::Math("\\ensuremath{x}".to_string()).render(), "\\ensuremath{x}");
    assert_eq!(LatexIr::Reference("fig:1".to_string()).render(), "\\ref{fig:1}");
    assert_eq!(LatexIr::Unsupported("circle".to_string()).render(), "\\texttt{[unsupported Typst element: circle]}");
}

#[test]
fn renders_wrappers() {
    assert_eq!(LatexIr::Strong(bx(text("b"))).render(), "\\textbf{b}");
    assert_eq!(LatexIr::Emph(bx(text("e"))).render(), "\\emph{e}");
    assert_eq!(LatexIr::Block(bx(text("k"))).render(), "k");
    assert_eq!(LatexIr::Footnote(bx(text("note"))).render(), "\\footnote{note}");
}

#[test]
fn renders_sequences_by_concatenation() {
    let seq = LatexIr::Sequence(vec![text("a"), LatexIr::Space, text("b")]);
    assert_eq!(seq.render(), "a b");
    let doc = LatexIr::Document(vec![seq, LatexIr::Parbreak, text("c")]);
    assert_eq!(doc.render(), "a b\n\nc");
    assert_eq!(LatexIr::Sequence(vec![]).render(), "");
}

#[test]
fn renders_inference_rules() {
    let rule = LatexIr::InferenceRule { premises: vec![text("A"), text("B")], conclusion: bx(text("C")) };
    assert_eq!(rule.render(), "\\inferrule{A \\\\ B}{C}");
    let no_premises = LatexIr::InferenceRule { premises: vec![], conclusion: bx(text("C")) };
    assert_eq!(no_premises.render(), "\\inferrule{}{C}");
    let group = LatexIr::RuleGroup(vec![text("R1"), text("R2")]);
    assert_eq!(group.render(), "\\begin{mathpar}\nR1\n\nR2\n\\end{mathpar}\n");
}

#[test]
fn renders_figures() {
    let fig = LatexIr::Figure { body: bx(text("img")), caption: Some(bx(text("Cap"))) };
    assert_eq!(fig.render(), "\\begin{figure}[htbp]\n\\centering\nimg\n\\caption{Cap}\n\\end{figure}\n");
    let bare = LatexIr::Figure { body: bx(text("img")), caption: None };
    assert_eq!(bare.render(), "\\begin{figure}[htbp]\n\\centering\nimg\n\\end{figure}\n");
}

#[test]
fn renders_tables() {
    let table = LatexIr::Table { cols: 2, rows: vec![vec![text("a"), text("b")], vec![text("c")]] };
    assert_eq!(table.render(), "\\begin{tabular}{ll}\n\\hline\na & b \\\\\nc \\\\\n\\hline\n\\end{tabular}\n");
    let none = LatexIr::Table { cols: 0, rows: vec![] };
    assert_eq!(none.render(), "\\begin{tabular}{l}\n\\hline\n\\hline\n\\end{tabular}\n");
}

#[test]
fn renders_citations() {
    assert_eq!(LatexIr::Cite(vec!["knuth".to_string(), "lamport".to_string()]).render(), "\\cite{knuth,lamport}");
    assert_eq!(LatexIr::Cite(vec!["one".to_string()]).render(), "\\cite{one}");
}

#[test]
fn renders_theorem_environments() {
    let thm = LatexIr::TheoremEnv { env: "theorem".to_string(), title: Some(bx(text("Main"))), body: bx(text("Body")) };
    assert_eq!(thm.render(), "\\begin{theorem}[Main]\nBody\n\\end{theorem}\n");
    let lemma = LatexIr::TheoremEnv { env: "lemma".to_string(), title: None, body: bx(text("B")) };
    assert_eq!(lemma.render(), "\\begin{lemma}\nB\n\\end{lemma}\n");
}

#[test]
fn containers_render_their_children_in_turn() {
    let xs = || vec![text("a"), LatexIr::Heading { level: 2, numbered: true, content: bx(text("H")) }, text("b")];
    let joined: String = xs().iter().map(|x| x.render()).collect();
    assert_eq!(LatexIr::Sequence(xs()).render(), joined);
    assert_eq!(LatexIr::Document(xs()).render(), joined);
    let items = || vec![LatexIr::Item(bx(text("p"))), LatexIr::Item(bx(text("q")))];
    let inner: String = items().iter().map(|x| x.render()).collect();
    assert_eq!(LatexIr::List(items()).render(), format!("\\begin{{itemize}}\n{}\\end{{itemize}}\n", inner));
    assert_eq!(LatexIr::NumberedList(items()).render(), format!("\\begin{{enumerate}}\n{}\\end{{enumerate}}\n", inner));
    assert_eq!(LatexIr::Document(vec![]).render(), "");
}
