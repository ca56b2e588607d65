//! Input-format detection and direction-detecting conversion entry points.
use vstd::prelude::*;

use crate::strings::{
    contains_sub, count_char, count_of, lemma_count_absent, lemma_count_contains, lemma_sub_contains, has_char, starts_with, str_contains,
    str_starts_with,
};

verus! {

/// Points for a pattern that is present.
pub open spec fn score_if(s: Seq<char>, pat: Seq<char>, points: int) -> int {
    if contains_sub(s, pat) {
        points
    } else {
        0
    }
}

/// The LaTeX evidence score of an input: strong indicators weigh more, and
/// every backslash adds one point.
pub open spec fn latex_score(s: Seq<char>) -> int {
    score_if(s, "\\documentclass"@, 10) + score_if(s, "\\begin{document}"@, 10) + score_if(
        s,
        "\\section"@,
        5,
    ) + score_if(s, "\\frac"@, 3) + score_if(s, "\\alpha"@, 2) + score_if(s, "\\\\"@, 2)
        + count_char(s, '\\')
}

/// The Typst evidence score of an input.
pub open spec fn typst_score(s: Seq<char>) -> int {
    score_if(s, "#set"@, 10) + score_if(s, "#show"@, 10) + score_if(s, "#import"@, 8) + (if starts_with(
        s,
        "="@,
    ) {
        5int
    } else {
        0int
    }) + score_if(s, "\n= "@, 5) + score_if(s, "frac("@, 3) + score_if(s, "sqrt("@, 3)
}

/// The format an input is detected as: whichever score leads by more than 3,
/// else whichever is positive (LaTeX first), else unknown.
pub open spec fn detected_format(s: Seq<char>) -> Seq<char> {
    let l = latex_score(s);
    let t = typst_score(s);
    if l > t + 3 {
        "latex"@
    } else if t > l + 3 {
        "typst"@
    } else if l > 0 {
        "latex"@
    } else if t > 0 {
        "typst"@
    } else {
        "unknown"@
    }
}

/// Detection answers `latex`, `typst` or `unknown`; it answers `unknown`
/// exactly when the input shows no evidence of either format, so an input
/// with a backslash is never unknown.
pub proof fn law_detected_format(s: Seq<char>)
    ensures
        detected_format(s) == "latex"@ || detected_format(s) == "typst"@ || detected_format(s)
            == "unknown"@,
        (detected_format(s) == "unknown"@) <==> (latex_score(s) == 0 && typst_score(s) == 0),
        s.contains('\\') ==> detected_format(s) != "unknown"@,
{
    reveal_strlit("latex");
    reveal_strlit("typst");
    reveal_strlit("unknown");
    assert("latex"@ != "unknown"@ && "typst"@ != "unknown"@) by {
        assert("latex"@.len() != "unknown"@.len());
        assert("typst"@.len() != "unknown"@.len());
    }
    if s.contains('\\') {
        lemma_count_contains(s, '\\');
    }
}

/// Without a backslash there is no LaTeX evidence.
proof fn lemma_no_latex_evidence(s: Seq<char>)
    requires
        !s.contains('\\'),
    ensures
        latex_score(s) == 0,
{
    reveal_strlit("\\documentclass");
    reveal_strlit("\\begin{document}");
    reveal_strlit("\\section");
    reveal_strlit("\\frac");
    reveal_strlit("\\alpha");
    reveal_strlit("\\\\");
    lemma_count_absent(s, '\\');
    if contains_sub(s, "\\documentclass"@) {
        lemma_sub_contains(s, "\\documentclass"@, 0, '\\');
    }
    if contains_sub(s, "\\begin{document}"@) {
        lemma_sub_contains(s, "\\begin{document}"@, 0, '\\');
    }
    if contains_sub(s, "\\section"@) {
        lemma_sub_contains(s, "\\section"@, 0, '\\');
    }
    if contains_sub(s, "\\frac"@) {
        lemma_sub_contains(s, "\\frac"@, 0, '\\');
    }
    if contains_sub(s, "\\alpha"@) {
        lemma_sub_contains(s, "\\alpha"@, 0, '\\');
    }
    if contains_sub(s, "\\\\"@) {
        lemma_sub_contains(s, "\\\\"@, 0, '\\');
    }
}

/// Typst markers without LaTeX are Typst: an input with no backslash that
/// has any of the Typst markers (`#set`, `#show`, `#import`, a leading `=`,
/// a heading line `\n= `, `frac(` or `sqrt(`) is detected as Typst, and one
/// with none of them as unknown.
pub proof fn law_typst_markers_detected(s: Seq<char>)
    requires
        !s.contains('\\'),
    ensures
        (contains_sub(s, "#set"@) || contains_sub(s, "#show"@) || contains_sub(s, "#import"@) || starts_with(s, "="@)
            || contains_sub(s, "\n= "@) || contains_sub(s, "frac("@) || contains_sub(s, "sqrt("@))
            ==> detected_format(s) == "typst"@,
        !(contains_sub(s, "#set"@) || contains_sub(s, "#show"@) || contains_sub(s, "#import"@) || starts_with(s, "="@)
            || contains_sub(s, "\n= "@) || contains_sub(s, "frac("@) || contains_sub(s, "sqrt("@))
            ==> detected_format(s) == "unknown"@,
{
    lemma_no_latex_evidence(s);
}

/// LaTeX without Typst markers is LaTeX: an input with a backslash and none
/// of the Typst markers is detected as LaTeX.
pub proof fn law_latex_without_typst_markers(s: Seq<char>)
    requires
        s.contains('\\'),
        !(contains_sub(s, "#set"@) || contains_sub(s, "#show"@) || contains_sub(s, "#import"@) || starts_with(s, "="@)
            || contains_sub(s, "\n= "@) || contains_sub(s, "frac("@) || contains_sub(s, "sqrt("@)),
    ensures
        detected_format(s) == "latex"@,
{
    lemma_count_contains(s, '\\');
}

/// Whether a math snippet is taken for LaTeX: it has a backslash and one of
/// the common LaTeX commands.
pub open spec fn looks_like_latex_math(s: Seq<char>) -> bool {
    s.contains('\\') && (contains_sub(s, "\\frac"@) || contains_sub(s, "\\alpha"@) || contains_sub(
        s,
        "\\sum"@,
    ) || contains_sub(s, "\\int"@) || contains_sub(s, "\\begin"@) || contains_sub(s, "\\section"@)
        || contains_sub(s, "\\documentclass"@))
}

/// Whether a full document is taken for LaTeX.
pub open spec fn looks_like_latex_document(s: Seq<char>) -> bool {
    contains_sub(s, "\\documentclass"@) || contains_sub(s, "\\begin{document}"@) || (s.contains(
        '\\',
    ) && (contains_sub(s, "\\section"@) || contains_sub(s, "\\chapter"@)))
}

/// Whether a full document is taken for Typst.
pub open spec fn looks_like_typst_document(s: Seq<char>) -> bool {
    contains_sub(s, "#set"@) || contains_sub(s, "#show"@) || starts_with(s, "="@) || contains_sub(
        s,
        "\n="@,
    )
}

fn points_if(s: &str, pat: &str, points: i32) -> (res: i32)
    requires
        0 <= points <= 10,
    ensures
        res == score_if(s@, pat@, points as int),
{
    if str_contains(s, pat) {
        points
    } else {
        0
    }
}

/// Detect input format.
///
/// Returns "latex", "typst", or "unknown" based on content analysis.
pub fn detect_format(input: &str) -> (res: &'static str)
    requires
        count_char(input@, '\\') + 32 <= i32::MAX,
    ensures
        res@ == detected_format(input@),
{
    let backslashes = count_of(input, '\\');
    let latex: i32 = points_if(input, "\\documentclass", 10) + points_if(input, "\\begin{document}", 10)
        + points_if(input, "\\section", 5) + points_if(input, "\\frac", 3) + points_if(
        input,
        "\\alpha",
        2,
    ) + points_if(input, "\\\\", 2) + backslashes as i32;
    let starts: i32 = if str_starts_with(input, "=") {
        5
    } else {
        0
    };
    let typst: i32 = points_if(input, "#set", 10) + points_if(input, "#show", 10) + points_if(
        input,
        "#import",
        8,
    ) + starts + points_if(input, "\n= ", 5) + points_if(input, "frac(", 3) + points_if(
        input,
        "sqrt(",
        3,
    );
    if latex > typst + 3 {
        "latex"
    } else if typst > latex + 3 {
        "typst"
    } else if latex > 0 {
        "latex"
    } else if typst > 0 {
        "typst"
    } else {
        "unknown"
    }
}

/// Convert with automatic direction detection.
///
/// Detects whether the input is LaTeX or Typst math and converts
/// accordingly: LaTeX math (a backslash and one of the common LaTeX
/// commands) goes through `to_typst`, the LaTeX → Typst converter, with the
/// target "typst"; anything else is taken for Typst and goes through
/// `to_latex`, the Typst → LaTeX converter, with the target "latex".
pub fn convert_auto<F: Fn(&str) -> String, G: Fn(&str) -> String>(input: &str, to_typst: F, to_latex: G) -> (res: (
    String,
    &'static str,
))
    requires
        call_requires(to_typst, (input,)),
        call_requires(to_latex, (input,)),
    ensures
        looks_like_latex_math(input@) ==> call_ensures(to_typst, (input,), res.0) && res.1@
            == "typst"@,
        !looks_like_latex_math(input@) ==> call_ensures(to_latex, (input,), res.0) && res.1@
            == "latex"@,
{
    let is_latex = has_char(input, '\\') && (str_contains(input, "\\frac") || str_contains(
        input,
        "\\alpha",
    ) || str_contains(input, "\\sum") || str_contains(input, "\\int") || str_contains(
        input,
        "\\begin",
    ) || str_contains(input, "\\section") || str_contains(input, "\\documentclass"));
    if is_latex {
        (to_typst(input), "typst")
    } else {
        (to_latex(input), "latex")
    }
}

/// Convert with automatic direction detection for full documents.
///
/// A document with LaTeX markers is converted with `to_typst` (the LaTeX →
/// Typst document converter), whether or not it also has Typst markers; a
/// document with Typst markers only is converted with `to_latex` (the Typst
/// → LaTeX document converter); a document with neither yields an empty
/// output and the target "latex".
pub fn convert_auto_document<F: Fn(&str) -> String, G: Fn(&str) -> String>(
    input: &str,
    to_typst: F,
    to_latex: G,
) -> (res: (String, &'static str))
    requires
        call_requires(to_typst, (input,)),
        call_requires(to_latex, (input,)),
    ensures
        looks_like_latex_document(input@) ==> call_ensures(to_typst, (input,), res.0) && res.1@
            == "typst"@,
        !looks_like_latex_document(input@) && looks_like_typst_document(input@) ==> call_ensures(
            to_latex,
            (input,),
            res.0,
        ) && res.1@ == "latex"@,
        !looks_like_latex_document(input@) && !looks_like_typst_document(input@) ==> res.0@
            == Seq::<char>::empty() && res.1@ == "latex"@,
{
    let is_latex = str_contains(input, "\\documentclass") || str_contains(input, "\\begin{document}")
        || (has_char(input, '\\') && (str_contains(input, "\\section") || str_contains(
        input,
        "\\chapter",
    )));
    let is_typst = str_contains(input, "#set") || str_contains(input, "#show") || str_starts_with(
        input,
        "=",
    ) || str_contains(input, "\n=");
    if is_latex && !is_typst {
        (to_typst(input), "typst")
    } else if is_typst && !is_latex {
        (to_latex(input), "latex")
    } else if is_latex {
        (to_typst(input), "typst")
    } else {
        (String::new(), "latex")
    }
}

} // verus!
