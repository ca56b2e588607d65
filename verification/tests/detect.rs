use tylax::detect::{convert_auto, convert_auto_document, detect_format};

fn tag(s: &str) -> String {
    format!("<{}>", s)
}

fn low(s: &str) -> String {
    format!("[{}]", s)
}

#[test]
fn detects_latex_document() {
    assert_eq!(detect_format("\\documentclass{article}\n\\begin{document}\nHi\n\\end{document}"), "latex");
}

#[test]
fn detects_typst_document() {
    assert_eq!(detect_format("#set page(width: 10cm)\n= Title"), "typst");
}

#[test]
fn detects_typst_from_leading_heading_and_functions() {
    assert_eq!(detect_format("= Heading\n$ frac(1, 2) $"), "typst");
}

#[test]
fn plain_text_is_unknown() {
    assert_eq!(detect_format("hello world"), "unknown");
    assert_eq!(detect_format(""), "unknown");
}

#[test]
fn a_small_latex_lead_still_counts() {
    // \alpha (2) + one backslash (1) = 3, not a lead of more than 3.
    assert_eq!(detect_format("\\alpha"), "latex");
}

#[test]
fn strong_typst_evidence_wins_over_some_latex() {
    // latex: \section (5) + one backslash = 6; typst: #set (10) > 6 + 3.
    assert_eq!(detect_format("#set text(size: 10pt) \\section"), "typst");
    // latex: \frac (3) + one backslash = 4; typst: #show (10).
    assert_eq!(detect_format("\\frac #show"), "typst");
}

#[test]
fn close_scores_favour_latex() {
    // latex: \section (5) + 1 = 6; typst: #import (8): no lead of more than 3.
    assert_eq!(detect_format("#import \\section"), "latex");
}

#[test]
fn a_backslash_is_never_unknown() {
    for input in ["\\", "a\\b", "\\x y z"] {
        assert_ne!(detect_format(input), "unknown", "input {:?}", input);
    }
}

#[test]
fn convert_auto_converts_latex_math() {
    assert_eq!(convert_auto("\\frac{1}{2}", tag, low), ("<\\frac{1}{2}>".to_string(), "typst"));
    assert_eq!(convert_auto("\\sum_i x_i", tag, low), ("<\\sum_i x_i>".to_string(), "typst"));
}

#[test]
fn convert_auto_leaves_other_input() {
    assert_eq!(convert_auto("x + y", tag, low), ("[x + y]".to_string(), "latex"));
    // A backslash alone is not enough.
    assert_eq!(convert_auto("\\foo", tag, low), ("[\\foo]".to_string(), "latex"));
    // Typst input is converted to LaTeX.
    let typst = "= Intro\n#set text(size: 11pt)\nHello\n";
    assert_eq!(convert_auto(typst, tag, low), (format!("[{}]", typst), "latex"));
}

#[test]
fn convert_auto_document_cases() {
    assert_eq!(
        convert_auto_document("\\documentclass{article}", tag, low),
        ("<\\documentclass{article}>".to_string(), "typst")
    );
    assert_eq!(convert_auto_document("#set page(width: 5cm)", tag, low), ("[#set page(width: 5cm)]".to_string(), "latex"));
    assert_eq!(convert_auto_document("= Intro", tag, low), ("[= Intro]".to_string(), "latex"));
    let typst = "#set page(width: 10cm)\n= Intro\nHello\n";
    assert_eq!(convert_auto_document(typst, tag, low), (format!("[{}]", typst), "latex"));
    // Both: LaTeX wins.
    assert_eq!(
        convert_auto_document("\\begin{document} #show", tag, low),
        ("<\\begin{document} #show>".to_string(), "typst")
    );
    // Neither.
    assert_eq!(convert_auto_document("plain", tag, low), (String::new(), "latex"));
    // A section command with a backslash is LaTeX.
    assert_eq!(convert_auto_document("\\chapter{One}", tag, low), ("<\\chapter{One}>".to_string(), "typst"));
    // A heading after a newline is Typst.
    assert_eq!(convert_auto_document("text\n= Heading", tag, low), ("[text\n= Heading]".to_string(), "latex"));
}
