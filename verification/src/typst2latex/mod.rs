//! Typst → LaTeX: lower evaluated Typst content into `LatexIr`, enforce the
//! unsupported-construct policy, and wrap the rendered body in a document.
pub mod ir;
pub mod utils;
pub mod context;
pub mod lower_math;
pub mod lower_fletcher;
pub mod matrix_layout;
pub mod edge_ends;
pub mod lower;
pub mod extract;
pub mod labels;
pub mod markers;
pub mod theorems;

use vstd::prelude::*;

use crate::strings::{contains_sub, decimal, starts_with, push_decimal, str_contains, string_of, views};
use crate::typst2latex::context::{
    DocumentWrapperMode, LowerContext, T2LOptions, UnsupportedInfo, UnsupportedMode, UnsupportedView,
    opt_view, unsupported_views,
};
use crate::typst2latex::extract::{PageSetup, PageView, get_page_setup, page_setup_of};
use crate::typst2latex::ir::{LatexIr, LatexTree, lemma_trees, rendered, rendered_join, trees};
use crate::typst2latex::labels::{collect_labels, labels_of};
use crate::typst2latex::theorems::{
    collect_theorem_kinds, declaration, lemma_setup_declares, push_theorem_setup, theorem_kinds, theorem_setup,
};
use crate::typst2latex::markers::{lemma_contains_extend, lemma_contains_self, law_unsupported_shown, marker, math_record};
use crate::typst2latex::lower::{Env, Node, lower_content, lowering};

verus! {

/// A warning attached to a successful conversion.
pub struct ConversionWarning {
    pub message: String,
}

/// The LaTeX a conversion produced, with its warnings.
pub struct ConversionResult {
    pub output: String,
    pub warnings: Vec<ConversionWarning>,
}

impl ConversionResult {
    /// A result with `output` and no warnings.
    pub fn ok(output: String) -> (res: Self)
        ensures
            res.output@ == output@,
            res.warnings@.len() == 0,
    {
        ConversionResult { output, warnings: Vec::new() }
    }
}

/// A hard conversion failure: the Typst source failed to load, parse or
/// evaluate, or the document holds constructs the policy does not let pass.
/// A Typst evaluation failure stops the conversion rather than emitting
/// plausible-looking but incorrect LaTeX.
pub struct ConversionError {
    pub message: String,
}

/// The severity of a Typst diagnostic.
pub enum Severity {
    Error,
    Warning,
}

/// A diagnostic Typst reported.
pub struct Diagnostic {
    pub severity: Severity,
    pub message: String,
    pub hints: Vec<String>,
}

/// The name of a severity, as Typst spells it.
pub open spec fn severity_name(s: Severity) -> Seq<char> {
    match s {
        Severity::Error => "Error"@,
        Severity::Warning => "Warning"@,
    }
}

/// One `    hint: …` line per hint.
pub open spec fn hints_text(hints: Seq<Seq<char>>) -> Seq<char>
    decreases hints.len(),
{
    if hints.len() == 0 {
        Seq::empty()
    } else {
        hints_text(hints.drop_last()) + "    hint: "@ + hints.last() + "\n"@
    }
}

/// A diagnostic as reported: `  [severity] message`, then its hints.
pub open spec fn diagnostic_text(d: Diagnostic) -> Seq<char> {
    "  ["@ + severity_name(d.severity) + "] "@ + d.message@ + "\n"@ + hints_text(views(d.hints@))
}

/// The diagnostics, one after the other.
pub open spec fn diagnostics_text(ds: Seq<Diagnostic>) -> Seq<char>
    decreases ds.len(),
{
    if ds.len() == 0 {
        Seq::empty()
    } else {
        diagnostics_text(ds.drop_last()) + diagnostic_text(ds.last())
    }
}

/// The message of a failed Typst stage.
pub open spec fn diagnostics_message(stage: Seq<char>, ds: Seq<Diagnostic>) -> Seq<char> {
    "Typst "@ + stage + " failed:\n"@ + diagnostics_text(ds)
}

/// Append one diagnostic as reported, with its hints.
fn push_diagnostic(message: &mut String, d: &Diagnostic)
    ensures
        final(message)@ == old(message)@ + diagnostic_text(*d),
{
    message.append("  [");
    match d.severity {
        Severity::Error => message.append("Error"),
        Severity::Warning => message.append("Warning"),
    }
    message.append("] ");
    message.append(d.message.as_str());
    message.append("\n");
    let mut j: usize = 0;
    let ghost head = message@;
    assert(d.hints@.take(0) =~= Seq::<String>::empty());
    while j < d.hints.len()
        invariant
            j <= d.hints@.len(),
            message@ == head + hints_text(views(d.hints@.take(j as int))),
        decreases d.hints@.len() - j,
    {
        assert(views(d.hints@.take(j + 1)).drop_last() =~= views(d.hints@.take(j as int)));
        message.append("    hint: ");
        message.append(d.hints[j].as_str());
        message.append("\n");
        j = j + 1;
    }
    assert(d.hints@.take(d.hints@.len() as int) =~= d.hints@);
}

/// The error for a Typst stage (`evaluation`, ...) that failed with `diags`.
pub fn format_diagnostics(stage: &str, diags: &Vec<Diagnostic>) -> (res: ConversionError)
    ensures
        res.message@ == diagnostics_message(stage@, diags@),
{
    let mut message = String::new();
    message.append("Typst ");
    message.append(stage);
    message.append(" failed:\n");
    let mut i: usize = 0;
    while i < diags.len()
        invariant
            i <= diags@.len(),
            message@ == diagnostics_message(stage@, diags@.take(i as int)),
        decreases diags@.len() - i,
    {
        assert(diags@.take(i + 1).drop_last() =~= diags@.take(i as int));
        push_diagnostic(&mut message, &diags[i]);
        i = i + 1;
    }
    assert(diags@.take(diags@.len() as int) =~= diags@);
    ConversionError { message }
}

/// The line listing one unsupported construct.
pub open spec fn unsupported_line(u: UnsupportedView) -> Seq<char> {
    "  - "@ + u.name + " at "@ + match u.location {
        Some(l) => l,
        None => "<unknown location>"@,
    } + match u.package {
        Some(p) => " ["@ + p + "]"@,
        None => Seq::empty(),
    } + "\n"@
}

/// The lines listing unsupported constructs.
pub open spec fn unsupported_lines(us: Seq<UnsupportedView>) -> Seq<char>
    decreases us.len(),
{
    if us.len() == 0 {
        Seq::empty()
    } else {
        unsupported_lines(us.drop_last()) + unsupported_line(us.last())
    }
}

/// The error message when unsupported constructs stop the conversion.
pub open spec fn unsupported_message(us: Seq<UnsupportedView>) -> Seq<char> {
    decimal(us.len())
        + " unsupported Typst construct(s) encountered (use --unsupported=raw to emit visible markers instead):\n"@
        + unsupported_lines(us)
}

/// The error message of the image policy.
pub open spec fn image_mode_message() -> Seq<char> {
    "--unsupported=image is not yet implemented; use error or raw"@
}

/// The fixed head of the preamble: fontspec, the math and inference-rule
/// packages, Libertinus Sans headings, and hyperref.
pub open spec fn preamble_head() -> Seq<char> {
    "\\documentclass{article}\n"@ + "\\usepackage{fontspec}\n\\usepackage{amsmath,amssymb}\n"@ + "\\usepackage{amsthm}\n"@ + "\\usepackage{mathtools}\n\\usepackage{stmaryrd}\n\\usepackage{mathpartir}\n\\usepackage{tikz-cd}\n\\usepackage{titlesec}\n\\newfontfamily\\headingfont{Libertinus Sans}\n\\titleformat*{\\section}{\\Large\\bfseries\\headingfont}\n\\titleformat*{\\subsection}{\\large\\bfseries\\headingfont}\n\\titleformat*{\\subsubsection}{\\normalsize\\bfseries\\headingfont}\n\\usepackage{hyperref}\n"@
}

/// One `\\addbibresource` line per resource.
pub open spec fn bib_resource_lines(bib: Seq<Seq<char>>) -> Seq<char>
    decreases bib.len(),
{
    if bib.len() == 0 {
        Seq::empty()
    } else {
        bib_resource_lines(bib.drop_last()) + "\\addbibresource{"@ + bib.last() + "}\n"@
    }
}

/// The bibliography setup of a document that names bibliography resources:
/// biblatex with the bibtex backend, and each resource.
pub open spec fn bibliography_setup(bib: Seq<Seq<char>>) -> Seq<char> {
    if bib.len() == 0 {
        Seq::empty()
    } else {
        "\\usepackage[backend=bibtex]{biblatex}\n"@ + bib_resource_lines(bib)
    }
}

/// The `geometry` options of the page settings: the paper width and
/// height and the uniform margin that are set, comma-separated.
pub open spec fn geometry_options(page: PageView) -> Seq<char> {
    let w = match page.width {
        Some(x) => "paperwidth="@ + x,
        None => Seq::empty(),
    };
    let h = match page.height {
        Some(x) => (if page.width is Some {
            ","@
        } else {
            Seq::empty()
        }) + "paperheight="@ + x,
        None => Seq::empty(),
    };
    let m = match page.margin {
        Some(x) => (if page.width is Some || page.height is Some {
            ","@
        } else {
            Seq::empty()
        }) + "margin="@ + x,
        None => Seq::empty(),
    };
    w + h + m
}

/// The `geometry` line of the page settings, when any of the paper width,
/// paper height and uniform margin is set.
pub open spec fn geometry_line(page: PageView) -> Seq<char> {
    if page.width is None && page.height is None && page.margin is None {
        Seq::empty()
    } else {
        "\\usepackage["@ + geometry_options(page) + "]{geometry}\n"@
    }
}

/// The preamble: its head, a `\newtheorem` for each kind of theorem
/// environment used, the bibliography setup, the `geometry` line of the
/// page settings, arabic page numbering when the page numbering is arabic,
/// and the start of the document.
pub open spec fn preamble_text(bib: Seq<Seq<char>>, kinds: Seq<Seq<char>>, page: PageView) -> Seq<char> {
    preamble_head() + theorem_setup(kinds) + bibliography_setup(bib) + geometry_line(page) + match page.numbering {
        Some(n) => if contains_sub(n, "Arabic"@) {
            "\\pagenumbering{arabic}\n"@
        } else {
            Seq::empty()
        },
        None => Seq::empty(),
    } + "\\begin{document}\n\n"@
}

/// The LaTeX of a converted body: the document with `body` as its only
/// child, wrapped in the preamble and `\end{document}` for a full document
/// with the default wrapper.
pub open spec fn conversion_output(
    body: LatexTree,
    bib: Seq<Seq<char>>,
    options: T2LOptions,
    page: PageView,
) -> Seq<char> {
    let doc = rendered(LatexTree::Document(seq![body]));
    if options.full_document && options.wrapper == DocumentWrapperMode::Default {
        preamble_text(bib, theorem_kinds(body), page) + doc + "\n\\end{document}\n"@
    } else {
        doc
    }
}

/// The outcome of finishing a conversion: the error message when the
/// policy stops it, else the LaTeX.
pub open spec fn finished(
    body: LatexTree,
    unsup: Seq<UnsupportedView>,
    bib: Seq<Seq<char>>,
    options: T2LOptions,
    page: PageView,
) -> Result<Seq<char>, Seq<char>> {
    if unsup.len() > 0 && options.unsupported == UnsupportedMode::Error {
        Err(unsupported_message(unsup))
    } else if unsup.len() > 0 && options.unsupported == UnsupportedMode::Image {
        Err(image_mode_message())
    } else {
        Ok(conversion_output(body, bib, options, page))
    }
}

/// The output or error message of a conversion result.
pub open spec fn outcome(res: Result<ConversionResult, ConversionError>) -> Result<Seq<char>, Seq<char>> {
    match res {
        Ok(r) => Ok(r.output@),
        Err(e) => Err(e.message@),
    }
}

/// Append the line listing one unsupported construct.
fn push_unsupported_line(out: &mut String, u: &UnsupportedInfo)
    ensures
        final(out)@ == old(out)@ + unsupported_line(u@),
{
    out.append("  - ");
    out.append(u.name.as_str());
    out.append(" at ");
    match &u.location {
        Some(l) => out.append(l.as_str()),
        None => out.append("<unknown location>"),
    }
    match &u.package {
        Some(p) => {
            out.append(" [");
            out.append(p.as_str());
            out.append("]");
        },
        None => {},
    }
    out.append("\n");
}

/// Append the lines listing unsupported constructs.
fn push_unsupported_lines(out: &mut String, us: &Vec<UnsupportedInfo>)
    ensures
        final(out)@ == old(out)@ + unsupported_lines(unsupported_views(us@)),
{
    let mut i: usize = 0;
    assert(unsupported_views(us@.take(0)) =~= Seq::<UnsupportedView>::empty());
    while i < us.len()
        invariant
            i <= us@.len(),
            out@ == old(out)@ + unsupported_lines(unsupported_views(us@.take(i as int))),
        decreases us@.len() - i,
    {
        let ghost vs = unsupported_views(us@.take(i + 1));
        assert(vs.drop_last() =~= unsupported_views(us@.take(i as int)));
        assert(vs.last() == us@[i as int]@);
        push_unsupported_line(out, &us[i]);
        i = i + 1;
    }
    assert(us@.take(us@.len() as int) =~= us@);
}

/// Append the `geometry` line of the page settings.
fn push_geometry(out: &mut String, page: &PageSetup)
    ensures
        final(out)@ == old(out)@ + geometry_line(page@),
{
    if page.width.is_none() && page.height.is_none() && page.margin.is_none() {
        return;
    }
    let ghost parts = geometry_parts(page@);
    let ghost start = out@;
    out.append("\\usepackage[");
    assert(out@ == start + parts.0);
    match &page.width {
        Some(w) => {
            out.append("paperwidth=");
            out.append(w.as_str());
        },
        None => {},
    }
    assert(out@ =~= start + parts.0 + parts.1);
    match &page.height {
        Some(h) => {
            if page.width.is_some() {
                out.append(",");
            }
            out.append("paperheight=");
            out.append(h.as_str());
        },
        None => {},
    }
    assert(out@ =~= start + parts.0 + parts.1 + parts.2);
    match &page.margin {
        Some(m) => {
            if page.width.is_some() || page.height.is_some() {
                out.append(",");
            }
            out.append("margin=");
            out.append(m.as_str());
        },
        None => {},
    }
    assert(out@ =~= start + parts.0 + parts.1 + parts.2 + parts.3);
    out.append("]{geometry}\n");
    assert(geometry_options(page@) == parts.1 + parts.2 + parts.3);
    assert(out@ =~= start + geometry_line(page@));
}

/// Append the preamble.
fn push_preamble(out: &mut String, bib: &Vec<String>, kinds: &Vec<String>, page: &PageSetup)
    ensures
        final(out)@ == old(out)@ + preamble_text(views(bib@), views(kinds@), page@),
{
    out.append("\\documentclass{article}\n");
    out.append("\\usepackage{fontspec}\n\\usepackage{amsmath,amssymb}\n");
    out.append("\\usepackage{amsthm}\n");
    out.append("\\usepackage{mathtools}\n\\usepackage{stmaryrd}\n\\usepackage{mathpartir}\n\\usepackage{tikz-cd}\n\\usepackage{titlesec}\n\\newfontfamily\\headingfont{Libertinus Sans}\n\\titleformat*{\\section}{\\Large\\bfseries\\headingfont}\n\\titleformat*{\\subsection}{\\large\\bfseries\\headingfont}\n\\titleformat*{\\subsubsection}{\\normalsize\\bfseries\\headingfont}\n\\usepackage{hyperref}\n");
    push_theorem_setup(out, kinds);
    if bib.len() > 0 {
        out.append("\\usepackage[backend=bibtex]{biblatex}\n");
        let mut i: usize = 0;
        let ghost head = out@;
        assert(views(bib@.take(0)) =~= Seq::<Seq<char>>::empty());
        while i < bib.len()
            invariant
                i <= bib@.len(),
                out@ == head + bib_resource_lines(views(bib@.take(i as int))),
            decreases bib@.len() - i,
        {
            assert(views(bib@.take(i + 1)).drop_last() =~= views(bib@.take(i as int)));
            out.append("\\addbibresource{");
            out.append(bib[i].as_str());
            out.append("}\n");
            i = i + 1;
        }
        assert(bib@.take(bib@.len() as int) =~= bib@);
    }
    push_geometry(out, page);
    match &page.numbering {
        Some(n) => {
            if str_contains(n.as_str(), "Arabic") {
                out.append("\\pagenumbering{arabic}\n");
            }
        },
        None => {},
    }
    out.append("\\begin{document}\n\n");
}

/// Finish a conversion of a lowered body: enforce the unsupported-construct
/// policy against the constructs lowering recorded (the default stops hard,
/// so that they never vanish silently), render the document and, for a full
/// document with the default wrapper, wrap it in the preamble (with the
/// theorem environments the body uses, the bibliography resources lowering
/// collected and the page settings of the document) and `\end{document}`.
pub fn finish_conversion(
    body: LatexIr,
    unsupported: &Vec<UnsupportedInfo>,
    bib_resources: &Vec<String>,
    options: &T2LOptions,
    page: &PageSetup,
) -> (res: Result<ConversionResult, ConversionError>)
    ensures
        outcome(res) == finished(
            body@,
            unsupported_views(unsupported@),
            views(bib_resources@),
            *options,
            page@,
        ),
        res matches Ok(r) ==> r.warnings@.len() == 0,
{
    if unsupported.len() > 0 {
        match options.unsupported {
            UnsupportedMode::Error => {
                let mut message = String::new();
                push_decimal(&mut message, unsupported.len() as u128);
                message.append(
                    " unsupported Typst construct(s) encountered (use --unsupported=raw to emit visible markers instead):\n",
                );
                push_unsupported_lines(&mut message, unsupported);
                return Err(ConversionError { message });
            },
            UnsupportedMode::Image => {
                return Err(
                    ConversionError {
                        message: string_of(
                            "--unsupported=image is not yet implemented; use error or raw",
                        ),
                    },
                );
            },
            UnsupportedMode::Raw => {},
        }
    }
    let ghost b = body@;
    let kinds = collect_theorem_kinds(&body);
    let mut children: Vec<LatexIr> = Vec::new();
    children.push(body);
    proof {
        lemma_trees(children@);
        assert(trees(children@) =~= seq![b]);
    }
    let doc = LatexIr::Document(children);
    assert(doc@ == LatexTree::Document(seq![b]));
    let rendered_doc = doc.render();
    let is_default = match options.wrapper {
        DocumentWrapperMode::Default => true,
        DocumentWrapperMode::Bare => false,
    };
    if options.full_document && is_default {
        let mut out = String::new();
        push_preamble(&mut out, bib_resources, &kinds, page);
        out.append(rendered_doc.as_str());
        out.append("\n\\end{document}\n");
        Ok(ConversionResult::ok(out))
    } else {
        Ok(ConversionResult::ok(rendered_doc))
    }
}

/// The outcome of converting evaluated content: lowered with the labels
/// the content defines, outside any table cell and with no bibliography
/// resources yet, then finished with the page settings the content gives.
pub open spec fn conversion(content: Node, options: T2LOptions) -> Result<Seq<char>, Seq<char>> {
    let l = lowering(content, Env { labels: labels_of(content), in_cell: false }, Seq::empty());
    finished(l.ir, l.unsup, l.bib, options, page_setup_of(content))
}

/// Convert evaluated Typst content to LaTeX: collect the labels it defines,
/// lower it, enforce the unsupported-construct policy, and wrap it as
/// `options` ask, with the page settings the content gives.
pub fn convert_content(content: &Node, options: &T2LOptions) -> (res: Result<ConversionResult, ConversionError>)
    ensures
        outcome(res) == conversion(*content, *options),
        res matches Ok(r) ==> r.warnings@.len() == 0,
{
    let labels = collect_labels(content);
    let mut ctx = LowerContext::new(labels);
    proof {
        assert(views(ctx.bib_resources@) =~= Seq::<Seq<char>>::empty());
        assert(unsupported_views(ctx.unsupported@) =~= Seq::<UnsupportedView>::empty());
    }
    let body = lower_content(content, &mut ctx);
    let page = get_page_setup(content);
    finish_conversion(body, &ctx.unsupported, &ctx.bib_resources, options, &page)
}

/// Unsupported constructs never pass silently: under the default `Error`
/// policy a conversion fails exactly when lowering recorded one, with a
/// message that counts and lists them all; under `Image` it fails exactly
/// then too; under `Raw` it never fails, the constructs showing as markers.
pub proof fn law_unsupported_policy(content: Node, options: T2LOptions)
    ensures
        ({
            let l = lowering(content, Env { labels: labels_of(content), in_cell: false }, Seq::empty());
            &&& options.unsupported == UnsupportedMode::Error ==> (conversion(content, options) is Err
                <==> l.unsup.len() > 0)
            &&& options.unsupported == UnsupportedMode::Error && l.unsup.len() > 0 ==> conversion(
                content,
                options,
            ) == Err::<Seq<char>, Seq<char>>(unsupported_message(l.unsup))
            &&& options.unsupported == UnsupportedMode::Image ==> (conversion(content, options) is Err
                <==> l.unsup.len() > 0)
            &&& options.unsupported == UnsupportedMode::Raw ==> conversion(content, options) is Ok
        }),
{
}

/// The options with the full-document option off.
pub open spec fn bare_options(options: T2LOptions) -> T2LOptions {
    T2LOptions { full_document: false, ..options }
}

/// Wrapping decides nothing about success: a conversion succeeds with the
/// full-document option exactly when it succeeds without it. Without the
/// option, or with the bare wrapper, the output is the rendered body alone;
/// a full document with the default wrapper is a preamble that starts with
/// `\documentclass{article}` and ends with `\begin{document}` and a blank
/// line, then that same body, then `\end{document}`.
pub proof fn law_document_wrapping(
    body: LatexTree,
    unsup: Seq<UnsupportedView>,
    bib: Seq<Seq<char>>,
    options: T2LOptions,
    page: PageView,
)
    ensures
        finished(body, unsup, bib, options, page) is Ok <==> finished(body, unsup, bib, bare_options(options), page) is Ok,
        finished(body, unsup, bib, options, page) is Ok ==> ({
            let out = finished(body, unsup, bib, options, page)->Ok_0;
            let doc = finished(body, unsup, bib, bare_options(options), page)->Ok_0;
            let p = preamble_text(bib, theorem_kinds(body), page);
            &&& doc == rendered(LatexTree::Document(seq![body]))
            &&& !(options.full_document && options.wrapper == DocumentWrapperMode::Default) ==> out == doc
            &&& options.full_document && options.wrapper == DocumentWrapperMode::Default ==> {
                &&& out == p + doc + "\n\\end{document}\n"@
                &&& starts_with(p, "\\documentclass{article}\n"@)
                &&& p.len() >= "\\begin{document}\n\n"@.len()
                &&& p.skip(p.len() - "\\begin{document}\n\n"@.len()) == "\\begin{document}\n\n"@
            }
        }),
{
    let p = preamble_text(bib, theorem_kinds(body), page);
    let d = "\\documentclass{article}\n"@;
    let b = "\\begin{document}\n\n"@;
    assert(p.subrange(0, d.len() as int) =~= d);
    assert(p.skip(p.len() - b.len()) =~= b);
}

/// Converting content as a full document succeeds exactly when converting
/// it as a bare body does; with the default wrapper the full document is a
/// preamble that starts with `\documentclass{article}` and ends with
/// `\begin{document}` and a blank line, then the bare body's output, then
/// `\end{document}`.
pub proof fn law_conversion_wrapping(content: Node, options: T2LOptions)
    requires
        options.full_document,
        options.wrapper == DocumentWrapperMode::Default,
    ensures
        conversion(content, options) is Ok <==> conversion(content, bare_options(options)) is Ok,
        conversion(content, options) is Ok ==> exists|p: Seq<char>|
            #![trigger starts_with(p, "\\documentclass{article}\n"@)]
            {
                &&& starts_with(p, "\\documentclass{article}\n"@)
                &&& p.len() >= "\\begin{document}\n\n"@.len()
                &&& p.skip(p.len() - "\\begin{document}\n\n"@.len()) == "\\begin{document}\n\n"@
                &&& conversion(content, options)->Ok_0 == p + conversion(content, bare_options(options))->Ok_0
                    + "\n\\end{document}\n"@
            },
{
    let l = lowering(content, Env { labels: labels_of(content), in_cell: false }, Seq::empty());
    let page = page_setup_of(content);
    law_document_wrapping(l.ir, l.unsup, l.bib, options, page);
    if conversion(content, options) is Ok {
        let p = preamble_text(l.bib, theorem_kinds(l.ir), page);
        assert(starts_with(p, "\\documentclass{article}\n"@));
    }
}

/// A full document with the default wrapper loads `amsthm` and declares
/// each kind of theorem environment its body uses, and its `geometry`
/// options carry the paper width, the paper height and the uniform margin
/// the page settings give.
pub proof fn law_preamble_setup(
    body: LatexTree,
    unsup: Seq<UnsupportedView>,
    bib: Seq<Seq<char>>,
    options: T2LOptions,
    page: PageView,
)
    requires
        finished(body, unsup, bib, options, page) is Ok,
        options.full_document,
        options.wrapper == DocumentWrapperMode::Default,
    ensures
        ({
            let out = finished(body, unsup, bib, options, page)->Ok_0;
            &&& contains_sub(out, "\\usepackage{amsthm}\n"@)
            &&& forall|k: Seq<char>| #![trigger declaration(k)]
                theorem_kinds(body).contains(k) ==> contains_sub(out, declaration(k))
            &&& page.width matches Some(w) ==> contains_sub(out, "paperwidth="@ + w)
            &&& page.height matches Some(h) ==> contains_sub(out, "paperheight="@ + h)
            &&& page.margin matches Some(m) ==> contains_sub(out, "margin="@ + m)
        }),
{
    let out = finished(body, unsup, bib, options, page)->Ok_0;
    let head = preamble_head();
    let setup = theorem_setup(theorem_kinds(body));
    let geo = geometry_line(page);
    let before_geo = head + setup + bibliography_setup(bib);
    let after_geo = out.skip((before_geo + geo).len() as int);
    assert(out =~= before_geo + geo + after_geo);
    let a = "\\documentclass{article}\n"@ + "\\usepackage{fontspec}\n\\usepackage{amsmath,amssymb}\n"@;
    let t = "\\usepackage{amsthm}\n"@;
    let r = head.skip((a + t).len() as int);
    assert(head =~= a + t + r);
    lemma_contains_self(t);
    lemma_contains_extend(a, t, out.skip((a + t).len() as int), t);
    assert(a + t + out.skip((a + t).len() as int) =~= out);
    assert forall|k: Seq<char>| #![trigger declaration(k)] theorem_kinds(body).contains(k) implies contains_sub(
        out,
        declaration(k),
    ) by {
        lemma_setup_declares(theorem_kinds(body), k);
        lemma_contains_extend(head, setup, out.skip((head + setup).len() as int), declaration(k));
        assert(head + setup + out.skip((head + setup).len() as int) =~= out);
    }
    lemma_geometry_holds(page);
    if let Some(x) = page.width {
        lemma_contains_extend(before_geo, geo, after_geo, "paperwidth="@ + x);
    }
    if let Some(x) = page.height {
        lemma_contains_extend(before_geo, geo, after_geo, "paperheight="@ + x);
    }
    if let Some(x) = page.margin {
        lemma_contains_extend(before_geo, geo, after_geo, "margin="@ + x);
    }
}

/// The `geometry` line holds each option the page settings give.
proof fn lemma_geometry_holds(page: PageView)
    ensures
        page.width matches Some(w) ==> contains_sub(geometry_line(page), "paperwidth="@ + w),
        page.height matches Some(h) ==> contains_sub(geometry_line(page), "paperheight="@ + h),
        page.margin matches Some(m) ==> contains_sub(geometry_line(page), "margin="@ + m),
{
    let (pre, w, h, m, post) = geometry_parts(page);
    if page.width is Some || page.height is Some || page.margin is Some {
        assert(geometry_line(page) == pre + (w + h + m) + post);
        if let Some(x) = page.width {
            lemma_contains_in(pre, "paperwidth="@ + x, h + m + post);
            assert(pre + ("paperwidth="@ + x) + (h + m + post) =~= geometry_line(page));
        }
        if let Some(x) = page.height {
            let c = h.take(h.len() - ("paperheight="@ + x).len());
            assert(h =~= c + ("paperheight="@ + x));
            lemma_contains_in(pre + w + c, "paperheight="@ + x, m + post);
            assert((pre + w + c) + ("paperheight="@ + x) + (m + post) =~= geometry_line(page));
        }
        if let Some(x) = page.margin {
            let c = m.take(m.len() - ("margin="@ + x).len());
            assert(m =~= c + ("margin="@ + x));
            lemma_contains_in(pre + w + h + c, "margin="@ + x, post);
            assert((pre + w + h + c) + ("margin="@ + x) + post =~= geometry_line(page));
        }
    }
}

/// The pieces of the `geometry` line: its opening, its three options (each
/// empty when unset) and its closing.
spec fn geometry_parts(page: PageView) -> (Seq<char>, Seq<char>, Seq<char>, Seq<char>, Seq<char>) {
    let w = match page.width {
        Some(x) => "paperwidth="@ + x,
        None => Seq::empty(),
    };
    let h = match page.height {
        Some(x) => (if page.width is Some {
            ","@
        } else {
            Seq::empty()
        }) + "paperheight="@ + x,
        None => Seq::empty(),
    };
    let m = match page.margin {
        Some(x) => (if page.width is Some || page.height is Some {
            ","@
        } else {
            Seq::empty()
        }) + "margin="@ + x,
        None => Seq::empty(),
    };
    ("\\usepackage["@, w, h, m, "]{geometry}\n"@)
}

/// `x` occurs in `a + x + b`.
proof fn lemma_contains_in(a: Seq<char>, x: Seq<char>, b: Seq<char>)
    ensures
        contains_sub(a + x + b, x),
{
    lemma_contains_self(x);
    lemma_contains_extend(a, x, b, x);
}

/// A conversion that succeeds (under the `Raw` policy, or with nothing
/// unsupported) shows every construct lowering recorded, unknown math aside,
/// as its `\texttt{[unsupported Typst element: name]}` marker.
pub proof fn law_markers_in_output(content: Node, options: T2LOptions)
    ensures
        ({
            let l = lowering(content, Env { labels: labels_of(content), in_cell: false }, Seq::empty());
            conversion(content, options) matches Ok(out) ==> forall|k: int|
                #![trigger l.unsup[k]]
                0 <= k < l.unsup.len() && !math_record(l.unsup[k]) ==> contains_sub(out, marker(l.unsup[k].name))
        }),
{
    let env = Env { labels: labels_of(content), in_cell: false };
    let l = lowering(content, env, Seq::empty());
    law_unsupported_shown(content, env, Seq::empty());
    let doc = rendered(LatexTree::Document(seq![l.ir]));
    assert(seq![l.ir].len() == 1 && seq![l.ir][0] == l.ir);
    assert(rendered_join(seq![l.ir], Seq::empty()) == rendered(l.ir));
    assert(doc == rendered_join(seq![l.ir], Seq::empty()));
    if let Ok(out) = conversion(content, options) {
        assert forall|k: int| #![trigger l.unsup[k]] 0 <= k < l.unsup.len() && !math_record(l.unsup[k]) implies contains_sub(
            out,
            marker(l.unsup[k].name),
        ) by {
            let m = marker(l.unsup[k].name);
            if options.full_document && options.wrapper == DocumentWrapperMode::Default {
                let p = preamble_text(l.bib, theorem_kinds(l.ir), page_setup_of(content));
                lemma_contains_extend(p, doc, "\n\\end{document}\n"@, m);
            } else {
                lemma_contains_extend(Seq::empty(), doc, Seq::empty(), m);
                assert(Seq::<char>::empty() + doc + Seq::<char>::empty() =~= doc);
            }
        }
    }
}

} // verus!
