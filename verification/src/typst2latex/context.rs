//! Conversion options and the state threaded through lowering: the record of
//! constructs that could not be lowered, the labels the document defines, and
//! the bibliography resources it names.
use vstd::prelude::*;

use crate::strings::{decimal, push_decimal, string_of};
use crate::typst2latex::ir::LatexIr;

verus! {

/// What to do when a construct cannot be lowered faithfully.
#[derive(Debug, Clone, Copy, PartialEq, Eq, Structural)]
pub enum UnsupportedMode {
    /// Stop the conversion with an error listing every such construct.
    Error,
    /// Render the construct as an image (not available: reported as an error).
    Image,
    /// Emit a visible `\texttt{[unsupported Typst element: ...]}` marker.
    Raw,
}

/// How the converted body is wrapped.
#[derive(Debug, Clone, Copy, PartialEq, Eq, Structural)]
pub enum DocumentWrapperMode {
    /// With `full_document`, wrap the body in the standard preamble and
    /// `document` environment.
    Default,
    /// Never wrap: emit the body alone.
    Bare,
}

/// Options of the Typst → LaTeX conversion.
#[derive(Debug, Clone, Copy)]
pub struct T2LOptions {
    /// Emit a complete LaTeX document rather than a bare body.
    pub full_document: bool,
    /// The policy for constructs that cannot be lowered.
    pub unsupported: UnsupportedMode,
    /// The document wrapper to use with `full_document`.
    pub wrapper: DocumentWrapperMode,
}

impl Default for T2LOptions {
    /// The defaults: a bare body, unsupported constructs are errors, the
    /// default wrapper.
    fn default() -> (res: T2LOptions)
        ensures
            !res.full_document,
            res.unsupported == UnsupportedMode::Error,
            res.wrapper == DocumentWrapperMode::Default,
    {
        T2LOptions {
            full_document: false,
            unsupported: UnsupportedMode::Error,
            wrapper: DocumentWrapperMode::Default,
        }
    }
}

/// The package a file belongs to.
#[derive(Debug, Clone)]
pub struct PackageSpecInfo {
    pub namespace: String,
    pub name: String,
    pub version: String,
}

/// Where a construct comes from: its file's path (relative to the project
/// or package root), the package the file belongs to, and the 0-based line
/// and column of the construct when its source and syntax node were found.
#[derive(Debug, Clone)]
pub struct SpanInfo {
    pub path: String,
    pub package: Option<PackageSpecInfo>,
    pub line_col: Option<(usize, usize)>,
}

/// A Typst construct that could not be lowered faithfully, with provenance.
#[derive(Debug, Clone)]
pub struct UnsupportedInfo {
    pub name: String,
    pub location: Option<String>,
    pub package: Option<String>,
}

/// The value of an optional string.
pub open spec fn opt_view(o: Option<String>) -> Option<Seq<char>> {
    match o {
        Some(s) => Some(s@),
        None => None,
    }
}

/// The mathematical content of an unsupported-construct record.
pub struct UnsupportedView {
    pub name: Seq<char>,
    pub location: Option<Seq<char>>,
    pub package: Option<Seq<char>>,
}

impl View for UnsupportedInfo {
    type V = UnsupportedView;

    open spec fn view(&self) -> UnsupportedView {
        UnsupportedView {
            name: self.name@,
            location: opt_view(self.location),
            package: opt_view(self.package),
        }
    }
}

/// The records of a list of unsupported constructs.
pub open spec fn unsupported_views(v: Seq<UnsupportedInfo>) -> Seq<UnsupportedView> {
    v.map_values(|u: UnsupportedInfo| u@)
}

/// The human-readable location of a span: `path:line:column` (1-based) when
/// the position is known, else the path; none without a span.
pub open spec fn location_of(span: Option<SpanInfo>) -> Option<Seq<char>> {
    match span {
        None => None,
        Some(si) => Some(
            match si.line_col {
                Some((line, col)) => si.path@ + ":"@ + decimal(line as nat + 1) + ":"@ + decimal(
                    col as nat + 1,
                ),
                None => si.path@,
            },
        ),
    }
}

/// The package a span comes from, as `@namespace/name:version`.
pub open spec fn package_of(span: Option<SpanInfo>) -> Option<Seq<char>> {
    match span {
        Some(si) => match si.package {
            Some(p) => Some("@"@ + p.namespace@ + "/"@ + p.name@ + ":"@ + p.version@),
            None => None,
        },
        None => None,
    }
}

/// The state threaded through lowering.
pub struct LowerContext {
    /// Unsupported constructs encountered while lowering, in order.
    pub unsupported: Vec<UnsupportedInfo>,
    /// All labels defined in the document, used to tell a cross-reference
    /// (`@key` naming a defined label) from a citation.
    pub defined_labels: Vec<String>,
    /// `.bib` resources named by `#bibliography(...)`, without repetition.
    pub bib_resources: Vec<String>,
    /// Whether lowering is inside a table cell.
    pub in_table_cell: bool,
}

impl LowerContext {
    /// A fresh context for a document that defines `defined_labels`.
    pub fn new(defined_labels: Vec<String>) -> (res: LowerContext)
        ensures
            res.unsupported@.len() == 0,
            res.defined_labels@ == defined_labels@,
            res.bib_resources@.len() == 0,
            !res.in_table_cell,
    {
        LowerContext {
            unsupported: Vec::new(),
            defined_labels,
            bib_resources: Vec::new(),
            in_table_cell: false,
        }
    }

    /// Record an unsupported element, with the source location and package
    /// of `span` where available, and return its visible marker.
    pub fn record_unsupported(&mut self, name: &str, span: &Option<SpanInfo>) -> (res: LatexIr)
        ensures
            unsupported_views(final(self).unsupported@) == unsupported_views(old(self).unsupported@).push(
                UnsupportedView { name: name@, location: location_of(*span), package: package_of(*span) },
            ),
            final(self).defined_labels@ == old(self).defined_labels@,
            final(self).bib_resources@ == old(self).bib_resources@,
            final(self).in_table_cell == old(self).in_table_cell,
            res matches LatexIr::Unsupported(n) && n@ == name@,
    {
        let mut location: Option<String> = None;
        let mut package: Option<String> = None;
        match span {
            Some(si) => {
                match &si.package {
                    Some(p) => {
                        let mut s = String::new();
                        s.append("@");
                        s.append(p.namespace.as_str());
                        s.append("/");
                        s.append(p.name.as_str());
                        s.append(":");
                        s.append(p.version.as_str());
                        package = Some(s);
                    },
                    None => {},
                }
                let mut loc = string_of(si.path.as_str());
                match si.line_col {
                    Some((line, col)) => {
                        loc.append(":");
                        push_decimal(&mut loc, line as u128 + 1);
                        loc.append(":");
                        push_decimal(&mut loc, col as u128 + 1);
                    },
                    None => {},
                }
                location = Some(loc);
            },
            None => {},
        }
        let info = UnsupportedInfo { name: string_of(name), location, package };
        let ghost before = self.unsupported@;
        self.unsupported.push(info);
        assert(unsupported_views(self.unsupported@) =~= unsupported_views(before).push(
            UnsupportedView { name: name@, location: location_of(*span), package: package_of(*span) },
        ));
        LatexIr::Unsupported(string_of(name))
    }
}

} // verus!
