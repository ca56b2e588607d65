//! Lower *realized* Typst math content to LaTeX.
//!
//! Math is described by [`MathNode`], a tree of the math elements that
//! realization (with `RealizationKind::Math`) yields, each paired with the
//! math style (variant, bold) in force. The emitter walks that tree and
//! writes LaTeX math source, noting alignment points and every element it
//! does not know.
use vstd::prelude::*;

use crate::strings::{
    chars_of, collapse_whitespace, collapse_ws, push_char, push_replaced, push_trimmed, repeat,
    replace_char, starts_with, trimmed, views,
};
use crate::typst2latex::context::{LowerContext, SpanInfo, UnsupportedView, location_of, package_of, unsupported_views};
use crate::typst2latex::ir::LatexIr;
use crate::typst2latex::utils::{unicode_latex, unicode_to_latex};

verus! {

/// A math alphabet.
#[derive(Debug, Clone, Copy, PartialEq, Eq, Structural)]
pub enum MathVariant {
    Plain,
    Fraktur,
    SansSerif,
    Monospace,
    DoubleStruck,
    Chancery,
    Roundhand,
}

/// The math style in force: the alphabet (if set) and whether bold is on.
#[derive(Debug, Clone, Copy, PartialEq, Eq, Structural)]
pub struct MathStyle {
    pub variant: Option<MathVariant>,
    pub bold: bool,
}

/// The over/under decorations.
#[derive(Debug, Clone, Copy, PartialEq, Eq, Structural)]
pub enum AccentKind {
    Overline,
    Underline,
    Overbrace,
    Underbrace,
    Overbracket,
    Underbracket,
    Overparen,
    Underparen,
    Overshell,
    Undershell,
}

/// A realized math element.
#[derive(Debug)]
pub enum MathNode {
    /// A sequence of elements.
    Sequence(Vec<MathNode>),
    /// An introspection tag: no visible output.
    Hidden,
    /// A wrapper whose body (if any) is emitted as is: a block, a box, a
    /// nested equation, or `scripts()`/`limits()`.
    Group(Option<Box<MathNode>>),
    /// An element emitted under another math style.
    Styled(MathStyle, Box<MathNode>),
    /// A symbol's glyphs.
    Symbol(String),
    /// A text run (operator names, `sans("...")` content).
    Text(String),
    Space,
    /// A horizontal kern, with its size in `mu` when it has a nonzero em part.
    Kern(Option<String>),
    Linebreak,
    AlignPoint,
    Frac(Box<MathNode>, Box<MathNode>),
    Root { index: Option<Box<MathNode>>, radicand: Box<MathNode> },
    Attach {
        base: Box<MathNode>,
        t: Option<Box<MathNode>>,
        b: Option<Box<MathNode>>,
        tl: Option<Box<MathNode>>,
        bl: Option<Box<MathNode>>,
        tr: Option<Box<MathNode>>,
        br: Option<Box<MathNode>>,
    },
    /// A left/right group: the children of its body, delimiters included.
    Lr(Vec<MathNode>),
    /// A text operator such as `sin` or `op("foo")`.
    Op(Box<MathNode>),
    Primes(usize),
    Accent { kind: AccentKind, body: Box<MathNode>, annotation: Option<Box<MathNode>> },
    /// Inline raw text.
    Raw(String),
    /// A math element the emitter does not know, by name.
    Unknown(String),
}

/// A realized equation body: its elements, each with its math style.
pub struct RealizedMath {
    pub parts: Vec<(MathNode, MathStyle)>,
}

/// An equation to lower.
pub struct Equation {
    /// Display (block) rather than inline.
    pub block: bool,
    pub body: RealizedMath,
    /// Where the equation comes from.
    pub span: Option<SpanInfo>,
}

/// The LaTeX command for a math alphabet, if it has one.
pub open spec fn variant_command(v: Option<MathVariant>) -> Option<Seq<char>> {
    match v {
        Some(MathVariant::SansSerif) => Some("\\mathsf"@),
        Some(MathVariant::Chancery) => Some("\\mathcal"@),
        Some(MathVariant::Roundhand) => Some("\\mathcal"@),
        Some(MathVariant::Fraktur) => Some("\\mathfrak"@),
        Some(MathVariant::Monospace) => Some("\\mathtt"@),
        Some(MathVariant::DoubleStruck) => Some("\\mathbb"@),
        _ => None,
    }
}

/// `body` under the math style: wrapped in the alphabet's command, else in
/// `\mathbf` when bold, else unchanged.
pub open spec fn styled(body: Seq<char>, style: MathStyle) -> Seq<char> {
    match variant_command(style.variant) {
        Some(cmd) => cmd + "{"@ + trimmed(body) + "}"@,
        None => if style.bold {
            "\\mathbf{"@ + trimmed(body) + "}"@
        } else {
            body
        },
    }
}

/// What a glyph becomes before styling; `None` for invisible characters
/// (invisible times, function application, variation selectors).
pub open spec fn glyph(c: char) -> Option<Seq<char>> {
    if c == '\u{2212}' {
        Some("-"@)
    } else if c == '\u{2062}' || c == '\u{2061}' || c == '\u{FE0E}' || c == '\u{FE0F}' {
        None
    } else if c == '{' {
        Some("\\{"@)
    } else if c == '}' {
        Some("\\}"@)
    } else {
        match unicode_latex(c) {
            Some(l) => Some(l + " "@),
            None => Some(seq![c]),
        }
    }
}

/// The glyphs of a symbol, each mapped and styled.
pub open spec fn glyphs(s: Seq<char>, style: MathStyle) -> Seq<char>
    decreases s.len(),
{
    if s.len() == 0 {
        Seq::empty()
    } else {
        glyphs(s.drop_last(), style) + match glyph(s.last()) {
            Some(g) => styled(g, style),
            None => Seq::empty(),
        }
    }
}

/// The LaTeX form of a one-character delimiter.
pub open spec fn delimiter_char(c: char) -> Option<Seq<char>> {
    if c == '(' || c == ')' || c == '[' || c == ']' || c == '|' || c == '.' || c == '/' {
        Some(seq![c])
    } else if c == '{' {
        Some("\\{"@)
    } else if c == '}' {
        Some("\\}"@)
    } else {
        unicode_latex(c)
    }
}

/// The LaTeX form of an element that is a single delimiter symbol.
pub open spec fn delimiter(n: MathNode) -> Option<Seq<char>> {
    match n {
        MathNode::Symbol(t) => if t@.len() == 1 {
            delimiter_char(t@[0])
        } else {
            None
        },
        MathNode::Text(t) => if t@.len() == 1 {
            delimiter_char(t@[0])
        } else {
            None
        },
        _ => None,
    }
}

/// The LaTeX command of a decoration.
pub open spec fn accent_command(k: AccentKind) -> Seq<char> {
    match k {
        AccentKind::Overline => "\\overline"@,
        AccentKind::Underline => "\\underline"@,
        AccentKind::Overbrace => "\\overbrace"@,
        AccentKind::Underbrace => "\\underbrace"@,
        AccentKind::Overbracket => "\\overbracket"@,
        AccentKind::Underbracket => "\\underbracket"@,
        AccentKind::Overparen => "\\overparen"@,
        AccentKind::Underparen => "\\underparen"@,
        AccentKind::Overshell => "\\overparen"@,
        AccentKind::Undershell => "\\underparen"@,
    }
}

/// The decorations drawn under their body.
pub open spec fn is_under(k: AccentKind) -> bool {
    k is Underline || k is Underbrace || k is Underbracket || k is Underparen || k is Undershell
}

/// The shell decorations, drawn with the paren commands.
pub open spec fn is_shell(k: AccentKind) -> bool {
    k is Overshell || k is Undershell
}

/// The command literals, spelled out.
proof fn lemma_accent_literals()
    ensures
        "\\overline"@ =~= seq!['\\', 'o', 'v', 'e', 'r', 'l', 'i', 'n', 'e'],
        "\\underline"@ =~= seq!['\\', 'u', 'n', 'd', 'e', 'r', 'l', 'i', 'n', 'e'],
        "\\overbrace"@ =~= seq!['\\', 'o', 'v', 'e', 'r', 'b', 'r', 'a', 'c', 'e'],
        "\\underbrace"@ =~= seq!['\\', 'u', 'n', 'd', 'e', 'r', 'b', 'r', 'a', 'c', 'e'],
        "\\overbracket"@ =~= seq!['\\', 'o', 'v', 'e', 'r', 'b', 'r', 'a', 'c', 'k', 'e', 't'],
        "\\underbracket"@ =~= seq!['\\', 'u', 'n', 'd', 'e', 'r', 'b', 'r', 'a', 'c', 'k', 'e', 't'],
        "\\overparen"@ =~= seq!['\\', 'o', 'v', 'e', 'r', 'p', 'a', 'r', 'e', 'n'],
        "\\underparen"@ =~= seq!['\\', 'u', 'n', 'd', 'e', 'r', 'p', 'a', 'r', 'e', 'n'],
        "\\under"@ =~= seq!['\\', 'u', 'n', 'd', 'e', 'r'],
        "\\over"@ =~= seq!['\\', 'o', 'v', 'e', 'r'],
{
    reveal_strlit("\\overline");
    reveal_strlit("\\underline");
    reveal_strlit("\\overbrace");
    reveal_strlit("\\underbrace");
    reveal_strlit("\\overbracket");
    reveal_strlit("\\underbracket");
    reveal_strlit("\\overparen");
    reveal_strlit("\\underparen");
    reveal_strlit("\\under");
    reveal_strlit("\\over");
}

/// Each decoration has a command of its own: a decoration drawn under its
/// body gets an `\under...` command and one drawn over it an `\over...`
/// command, and two different decorations get different commands unless
/// one is a shell, which is drawn as the paren of its side.
pub proof fn law_accent_commands(k1: AccentKind, k2: AccentKind)
    ensures
        starts_with(accent_command(k1), "\\under"@) <==> is_under(k1),
        starts_with(accent_command(k1), "\\over"@) <==> !is_under(k1),
        !is_shell(k1) && !is_shell(k2) && k1 != k2 ==> accent_command(k1) != accent_command(k2),
        is_shell(k1) ==> accent_command(k1) == accent_command(
            if is_under(k1) {
                AccentKind::Underparen
            } else {
                AccentKind::Overparen
            },
        ),
{
    lemma_accent_literals();
    let c1 = accent_command(k1);
    let c2 = accent_command(k2);
    assert(c1.subrange(0, 2) == c1.take(2));
    if is_under(k1) {
        assert(c1.subrange(0, 6) =~= "\\under"@);
        assert(c1.subrange(0, 5) != "\\over"@) by {
            assert(c1.subrange(0, 5)[1] != "\\over"@[1]);
        }
    } else {
        assert(c1.subrange(0, 5) =~= "\\over"@);
        if c1.len() >= 6 {
            assert(c1.subrange(0, 6) != "\\under"@) by {
                assert(c1.subrange(0, 6)[1] != "\\under"@[1]);
            }
        }
    }
    if !is_shell(k1) && !is_shell(k2) && k1 != k2 {
        assert(c1 != c2) by {
            if c1.len() == c2.len() {
                if c1[1] == c2[1] {
                    if c1.len() == 10 {
                        assert(c1[5] != c2[5]);
                    } else {
                        assert(c1[6] != c2[6]);
                    }
                } else {
                    assert(c1[1] != c2[1]);
                }
            }
        }
    }
}

/// Whether a decoration takes an annotation, and where it goes.
pub open spec fn annotation_position(k: AccentKind) -> Option<char> {
    match k {
        AccentKind::Overline => None,
        AccentKind::Underline => None,
        AccentKind::Overbrace => Some('^'),
        AccentKind::Overbracket => Some('^'),
        AccentKind::Overparen => Some('^'),
        AccentKind::Overshell => Some('^'),
        _ => Some('_'),
    }
}

/// The LaTeX math source of a node under a style.
pub open spec fn math_text(n: MathNode, style: MathStyle) -> Seq<char>
    decreases n,
{
    match n {
        MathNode::Sequence(children) => math_text_seq(children@, style),
        MathNode::Hidden => Seq::empty(),
        MathNode::Group(body) => match body {
            Some(b) => math_text(*b, style),
            None => Seq::empty(),
        },
        MathNode::Styled(s, child) => math_text(*child, s),
        MathNode::Symbol(t) => glyphs(t@, style),
        MathNode::Text(t) => styled(replace_char(t@, '_', "\\_"@), style),
        MathNode::Space => " "@,
        MathNode::Kern(mu) => match mu {
            Some(m) => " \\mkern"@ + m@ + "mu "@,
            None => Seq::empty(),
        },
        MathNode::Linebreak => " \\\\ "@,
        MathNode::AlignPoint => "&"@,
        MathNode::Frac(num, denom) => "\\frac{"@ + math_text(*num, style) + "}{"@ + math_text(
            *denom,
            style,
        ) + "}"@,
        MathNode::Root { index, radicand } => "\\sqrt"@ + (match index {
            Some(i) => "["@ + math_text(*i, style) + "]"@,
            None => Seq::empty(),
        }) + "{"@ + math_text(*radicand, style) + "}"@,
        MathNode::Attach { base, t, b, tl, bl, tr, br } => (if tl is Some || bl is Some {
            "{}"@
        } else {
            Seq::empty()
        }) + (script_text('^', tl, style) + script_text('_', bl, style)) + ("{"@ + math_text(
            *base,
            style,
        ) + "}"@) + ((script_text('_', b, style) + script_text('^', t, style)) + (script_text(
            '_',
            br,
            style,
        ) + script_text('^', tr, style))),
        MathNode::Lr(children) => if children@.len() >= 2 && delimiter(children@[0]) is Some
            && delimiter(children@.last()) is Some {
            "\\left"@ + delimiter(children@[0])->0 + " "@ + math_text_seq(
                children@.subrange(1, children@.len() - 1),
                style,
            ) + " \\right"@ + delimiter(children@.last())->0
        } else {
            math_text_seq(children@, style)
        },
        MathNode::Op(text) => "\\operatorname{"@ + trimmed(math_text(*text, style)) + "}"@,
        MathNode::Primes(count) => repeat("'"@, count as nat),
        MathNode::Accent { kind, body, annotation } => accent_command(kind) + "{"@ + math_text(
            *body,
            style,
        ) + "}"@ + match (annotation_position(kind), annotation) {
            (Some(pos), Some(a)) => seq![pos] + "{"@ + math_text(*a, style) + "}"@,
            _ => Seq::empty(),
        },
        MathNode::Raw(t) => "\\mathtt{"@ + replace_char(t@, '\\', "\\backslash "@) + "}"@,
        MathNode::Unknown(name) => " \\mathrm{[?"@ + name@ + "]} "@,
    }
}

/// An optional sub/superscript: the marker and the script in braces.
pub open spec fn script_text(marker: char, script: Option<Box<MathNode>>, style: MathStyle) -> Seq<
    char,
>
    decreases script,
{
    match script {
        Some(s) => seq![marker] + "{"@ + math_text(*s, style) + "}"@,
        None => Seq::empty(),
    }
}

/// The math source of a sequence of nodes.
pub open spec fn math_text_seq(s: Seq<MathNode>, style: MathStyle) -> Seq<char>
    decreases s,
{
    if s.len() == 0 {
        Seq::empty()
    } else {
        math_text_seq(s.drop_last(), style) + math_text(s.last(), style)
    }
}

/// Whether a node contains a line break or alignment point (outside text
/// operators, whose alignment is dropped).
pub open spec fn math_aligns(n: MathNode) -> bool
    decreases n,
{
    match n {
        MathNode::Sequence(children) => math_aligns_seq(children@),
        MathNode::Group(body) => match body {
            Some(b) => math_aligns(*b),
            None => false,
        },
        MathNode::Styled(_, child) => math_aligns(*child),
        MathNode::Linebreak => true,
        MathNode::AlignPoint => true,
        MathNode::Frac(num, denom) => math_aligns(*num) || math_aligns(*denom),
        MathNode::Root { index, radicand } => (match index {
            Some(i) => math_aligns(*i),
            None => false,
        }) || math_aligns(*radicand),
        MathNode::Attach { base, t, b, tl, bl, tr, br } => script_aligns(tl) || script_aligns(bl)
            || math_aligns(*base) || script_aligns(b) || script_aligns(t) || script_aligns(br)
            || script_aligns(tr),
        MathNode::Lr(children) => math_aligns_seq(children@),
        MathNode::Accent { kind, body, annotation } => math_aligns(*body) || match (
            annotation_position(kind),
            annotation,
        ) {
            (Some(_), Some(a)) => math_aligns(*a),
            _ => false,
        },
        _ => false,
    }
}

/// Whether an optional script aligns.
pub open spec fn script_aligns(script: Option<Box<MathNode>>) -> bool
    decreases script,
{
    match script {
        Some(s) => math_aligns(*s),
        None => false,
    }
}

/// Whether any node of a sequence aligns.
pub open spec fn math_aligns_seq(s: Seq<MathNode>) -> bool
    decreases s,
{
    if s.len() == 0 {
        false
    } else {
        math_aligns_seq(s.drop_last()) || math_aligns(s.last())
    }
}

/// The names (`math.<name>`) of the unknown elements of a node, in order.
pub open spec fn math_unknowns(n: MathNode) -> Seq<Seq<char>>
    decreases n,
{
    match n {
        MathNode::Sequence(children) => math_unknowns_seq(children@),
        MathNode::Group(body) => match body {
            Some(b) => math_unknowns(*b),
            None => Seq::empty(),
        },
        MathNode::Styled(_, child) => math_unknowns(*child),
        MathNode::Frac(num, denom) => math_unknowns(*num) + math_unknowns(*denom),
        MathNode::Root { index, radicand } => (match index {
            Some(i) => math_unknowns(*i),
            None => Seq::empty(),
        }) + math_unknowns(*radicand),
        MathNode::Attach { base, t, b, tl, bl, tr, br } => (script_unknowns(tl) + script_unknowns(
            bl,
        )) + math_unknowns(*base) + ((script_unknowns(b) + script_unknowns(t)) + (script_unknowns(
            br,
        ) + script_unknowns(tr))),
        MathNode::Lr(children) => math_unknowns_seq(children@),
        MathNode::Op(text) => math_unknowns(*text),
        MathNode::Accent { kind, body, annotation } => math_unknowns(*body) + match (
            annotation_position(kind),
            annotation,
        ) {
            (Some(_), Some(a)) => math_unknowns(*a),
            _ => Seq::empty(),
        },
        MathNode::Unknown(name) => seq!["math."@ + name@],
        _ => Seq::empty(),
    }
}

/// The unknown-element names of an optional script.
pub open spec fn script_unknowns(script: Option<Box<MathNode>>) -> Seq<Seq<char>>
    decreases script,
{
    match script {
        Some(s) => math_unknowns(*s),
        None => Seq::empty(),
    }
}

/// The unknown-element names of a sequence of nodes.
pub open spec fn math_unknowns_seq(s: Seq<MathNode>) -> Seq<Seq<char>>
    decreases s,
{
    if s.len() == 0 {
        Seq::empty()
    } else {
        math_unknowns_seq(s.drop_last()) + math_unknowns(s.last())
    }
}

/// The output buffers of the emitter.
pub struct MathSink {
    pub out: String,
    pub has_align: bool,
    pub unsup: Vec<String>,
}

fn variant_cmd(v: Option<MathVariant>) -> (res: Option<&'static str>)
    ensures
        match res {
            Some(r) => variant_command(v) == Some(r@),
            None => variant_command(v) is None,
        },
{
    match v {
        Some(MathVariant::SansSerif) => Some("\\mathsf"),
        Some(MathVariant::Chancery) | Some(MathVariant::Roundhand) => Some("\\mathcal"),
        Some(MathVariant::Fraktur) => Some("\\mathfrak"),
        Some(MathVariant::Monospace) => Some("\\mathtt"),
        Some(MathVariant::DoubleStruck) => Some("\\mathbb"),
        _ => None,
    }
}

/// Wrap `body` in the LaTeX command for the current math variant/bold, if any.
pub fn apply_variant(body: &str, style: MathStyle, out: &mut String)
    ensures
        final(out)@ == old(out)@ + styled(body@, style),
{
    match variant_cmd(style.variant) {
        Some(cmd) => {
            out.append(cmd);
            out.append("{");
            push_trimmed(out, body);
            out.append("}");
        },
        None => {
            if style.bold {
                out.append("\\mathbf{");
                push_trimmed(out, body);
                out.append("}");
            } else {
                out.append(body);
            }
        },
    }
}

/// Emit one glyph, mapped to LaTeX and styled.
pub fn push_glyph(ch: char, style: MathStyle, out: &mut String)
    ensures
        final(out)@ == old(out)@ + match glyph(ch) {
            Some(g) => styled(g, style),
            None => Seq::empty(),
        },
{
    let mut mapped = String::new();
    if ch == '\u{2212}' {
        mapped.append("-");
    } else if ch == '\u{2062}' || ch == '\u{2061}' || ch == '\u{FE0E}' || ch == '\u{FE0F}' {
        return ;
    } else if ch == '{' {
        mapped.append("\\{");
    } else if ch == '}' {
        mapped.append("\\}");
    } else {
        match unicode_to_latex(ch) {
            Some(latex) => {
                mapped.append(latex);
                mapped.append(" ");
            },
            None => {
                push_char(&mut mapped, ch);
            },
        }
    }
    apply_variant(mapped.as_str(), style, out);
}

/// Emit a run of glyphs, mapping each char to LaTeX and applying the style.
pub fn push_str_glyphs(text: &str, style: MathStyle, out: &mut String)
    ensures
        final(out)@ == old(out)@ + glyphs(text@, style),
{
    let cs = chars_of(text);
    let mut i: usize = 0;
    while i < cs.len()
        invariant
            cs@ == text@,
            i <= cs.len(),
            out@ == old(out)@ + glyphs(cs@.take(i as int), style),
        decreases cs.len() - i,
    {
        assert(cs@.take(i + 1).drop_last() =~= cs@.take(i as int));
        push_glyph(cs[i], style, out);
        i = i + 1;
    }
    assert(cs@.take(cs.len() as int) =~= cs@);
}

/// Emit a text run as one unit, with `_` escaped, applying the style.
pub fn emit_text(text: &str, style: MathStyle, out: &mut String)
    ensures
        final(out)@ == old(out)@ + styled(replace_char(text@, '_', "\\_"@), style),
{
    let mut escaped = String::new();
    push_replaced(&mut escaped, text, '_', "\\_");
    apply_variant(escaped.as_str(), style, out);
}

fn delimiter_of_char(c: char) -> (res: Option<String>)
    ensures
        match res {
            Some(r) => delimiter_char(c) == Some(r@),
            None => delimiter_char(c) is None,
        },
{
    if c == '(' || c == ')' || c == '[' || c == ']' || c == '|' || c == '.' || c == '/' {
        let mut s = String::new();
        push_char(&mut s, c);
        Some(s)
    } else if c == '{' {
        let mut s = String::new();
        s.append("\\{");
        Some(s)
    } else if c == '}' {
        let mut s = String::new();
        s.append("\\}");
        Some(s)
    } else {
        match unicode_to_latex(c) {
            Some(l) => {
                let mut s = String::new();
                s.append(l);
                Some(s)
            },
            None => None,
        }
    }
}

/// If this element is a single delimiter symbol, its LaTeX form.
pub fn delimiter_of(n: &MathNode) -> (res: Option<String>)
    ensures
        match res {
            Some(r) => delimiter(*n) == Some(r@),
            None => delimiter(*n) is None,
        },
{
    let text = match n {
        MathNode::Symbol(t) => t,
        MathNode::Text(t) => t,
        _ => {
            return None;
        },
    };
    let cs = chars_of(text.as_str());
    if cs.len() != 1 {
        return None;
    }
    delimiter_of_char(cs[0])
}

fn accent_cmd(k: AccentKind) -> (res: &'static str)
    ensures
        res@ == accent_command(k),
{
    match k {
        AccentKind::Overline => "\\overline",
        AccentKind::Underline => "\\underline",
        AccentKind::Overbrace => "\\overbrace",
        AccentKind::Underbrace => "\\underbrace",
        AccentKind::Overbracket => "\\overbracket",
        AccentKind::Underbracket => "\\underbracket",
        AccentKind::Overparen => "\\overparen",
        AccentKind::Underparen => "\\underparen",
        AccentKind::Overshell => "\\overparen",
        AccentKind::Undershell => "\\underparen",
    }
}

fn annotation_pos(k: AccentKind) -> (res: Option<char>)
    ensures
        res == annotation_position(k),
{
    match k {
        AccentKind::Overline => None,
        AccentKind::Underline => None,
        AccentKind::Overbrace => Some('^'),
        AccentKind::Overbracket => Some('^'),
        AccentKind::Overparen => Some('^'),
        AccentKind::Overshell => Some('^'),
        _ => Some('_'),
    }
}

/// Recursively emit LaTeX for one math element.
pub fn emit(n: &MathNode, style: MathStyle, sink: &mut MathSink)
    ensures
        final(sink).out@ == old(sink).out@ + math_text(*n, style),
        final(sink).has_align == (old(sink).has_align || math_aligns(*n)),
        views(final(sink).unsup@) == views(old(sink).unsup@) + math_unknowns(*n),
    decreases n, 2int,
{
    match n {
        MathNode::Sequence(children) => {
            emit_seq(children, style, sink);
        },
        MathNode::Group(body) => {
            match body {
                Some(b) => emit(b, style, sink),
                None => {
                    assert(views(sink.unsup@) =~= views(old(sink).unsup@) + math_unknowns(*n));
                },
            }
        },
        MathNode::Styled(s, child) => {
            emit(child, *s, sink);
        },
        MathNode::Frac(num, denom) => {
            sink.out.append("\\frac{");
            emit(num, style, sink);
            sink.out.append("}{");
            emit(denom, style, sink);
            sink.out.append("}");
            assert(views(sink.unsup@) =~= views(old(sink).unsup@) + math_unknowns(*n));
        },
        MathNode::Root { index, radicand } => {
            sink.out.append("\\sqrt");
            match index {
                Some(i) => {
                    sink.out.append("[");
                    emit(i, style, sink);
                    sink.out.append("]");
                },
                None => {},
            }
            sink.out.append("{");
            emit(radicand, style, sink);
            sink.out.append("}");
            assert(views(sink.unsup@) =~= views(old(sink).unsup@) + math_unknowns(*n));
        },
        MathNode::Attach { .. } => {
            emit_attach(n, style, sink);
        },
        MathNode::Lr(children) => {
            emit_lr(children, style, sink);
        },
        MathNode::Op(text) => {
            let mut inner = MathSink { out: String::new(), has_align: false, unsup: Vec::new() };
            emit(text, style, &mut inner);
            sink.out.append("\\operatorname{");
            push_trimmed(&mut sink.out, inner.out.as_str());
            sink.out.append("}");
            assert(views(inner.unsup@) =~= math_unknowns(**text));
            append_names(&mut sink.unsup, &inner.unsup);
        },
        MathNode::Accent { .. } => {
            emit_accent(n, style, sink);
        },
        _ => {
            emit_leaf(n, style, sink);
        },
    }
}

/// Emit an element without children.
fn emit_leaf(n: &MathNode, style: MathStyle, sink: &mut MathSink)
    requires
        !(n is Sequence || n is Group || n is Styled || n is Frac || n is Root || n is Attach
            || n is Lr || n is Op || n is Accent),
    ensures
        final(sink).out@ == old(sink).out@ + math_text(*n, style),
        final(sink).has_align == (old(sink).has_align || math_aligns(*n)),
        views(final(sink).unsup@) == views(old(sink).unsup@) + math_unknowns(*n),
{
    let ghost u0 = views(sink.unsup@);
    match n {
        MathNode::Symbol(t) => {
            push_str_glyphs(t.as_str(), style, &mut sink.out);
        },
        MathNode::Text(t) => {
            emit_text(t.as_str(), style, &mut sink.out);
        },
        MathNode::Space => {
            sink.out.append(" ");
        },
        MathNode::Kern(mu) => {
            match mu {
                Some(m) => {
                    sink.out.append(" \\mkern");
                    sink.out.append(m.as_str());
                    sink.out.append("mu ");
                },
                None => {},
            }
        },
        MathNode::Linebreak => {
            sink.out.append(" \\\\ ");
            sink.has_align = true;
        },
        MathNode::AlignPoint => {
            sink.out.append("&");
            sink.has_align = true;
        },
        MathNode::Primes(count) => {
            let mut k: usize = 0;
            while k < *count
                invariant
                    k <= *count,
                    sink.out@ == old(sink).out@ + repeat("'"@, k as nat),
                    sink.has_align == old(sink).has_align,
                    sink.unsup@ == old(sink).unsup@,
                decreases *count - k,
            {
                sink.out.append("'");
                k = k + 1;
            }
        },
        MathNode::Raw(t) => {
            sink.out.append("\\mathtt{");
            push_replaced(&mut sink.out, t.as_str(), '\\', "\\backslash ");
            sink.out.append("}");
        },
        MathNode::Unknown(name) => {
            sink.out.append(" \\mathrm{[?");
            sink.out.append(name.as_str());
            sink.out.append("]} ");
            let mut full = String::new();
            full.append("math.");
            full.append(name.as_str());
            sink.unsup.push(full);
            assert(views(sink.unsup@) =~= u0.push("math."@ + name@));
        },
        _ => {},
    }
    assert(views(sink.unsup@) =~= views(old(sink).unsup@) + math_unknowns(*n));
}

/// Emit an attachment: pre-scripts on an empty base, the base in braces,
/// then the bottom, top and post scripts.
#[verifier::spinoff_prover]
#[verifier::rlimit(40)]
fn emit_attach(n: &MathNode, style: MathStyle, sink: &mut MathSink)
    requires
        n is Attach,
    ensures
        final(sink).out@ == old(sink).out@ + math_text(*n, style),
        final(sink).has_align == (old(sink).has_align || math_aligns(*n)),
        views(final(sink).unsup@) == views(old(sink).unsup@) + math_unknowns(*n),
    decreases n, 1int,
{
    match n {
        MathNode::Attach { base, t, b, tl, bl, tr, br } => {
            if tl.is_some() || bl.is_some() {
                sink.out.append("{}");
            }
            let ghost u1 = views(sink.unsup@);
            let ghost o1 = sink.out@;
            emit_script_group(n, 0, style, sink);
            let ghost u2 = views(sink.unsup@);
            let ghost o2 = sink.out@;
            sink.out.append("{");
            emit(base, style, sink);
            sink.out.append("}");
            let ghost u3 = views(sink.unsup@);
            let ghost o3 = sink.out@;
            assert(o3 == o2 + ("{"@ + math_text(**base, style) + "}"@));
            emit_script_group(n, 1, style, sink);
            let ghost u4 = views(sink.unsup@);
            emit_script_group(n, 2, style, sink);
            assert(u4 =~= u3 + (script_unknowns(*b) + script_unknowns(*t)));
            assert(views(sink.unsup@) =~= views(old(sink).unsup@) + math_unknowns(*n));
            assert(sink.out@ =~= old(sink).out@ + math_text(*n, style));
        },
        _ => {},
    }
}

/// Emit an over/under decoration around its body, with the annotation (for
/// the decorations that take one) as a super/subscript.
fn emit_accent(n: &MathNode, style: MathStyle, sink: &mut MathSink)
    requires
        n is Accent,
    ensures
        final(sink).out@ == old(sink).out@ + math_text(*n, style),
        final(sink).has_align == (old(sink).has_align || math_aligns(*n)),
        views(final(sink).unsup@) == views(old(sink).unsup@) + math_unknowns(*n),
    decreases n, 1int,
{
    match n {
        MathNode::Accent { kind, body, annotation } => {
            sink.out.append(accent_cmd(*kind));
            sink.out.append("{");
            emit(body, style, sink);
            sink.out.append("}");
            match (annotation_pos(*kind), annotation) {
                (Some(pos), Some(a)) => {
                    push_char(&mut sink.out, pos);
                    sink.out.append("{");
                    emit(a, style, sink);
                    sink.out.append("}");
                },
                _ => {},
            }
            assert(views(sink.unsup@) =~= views(old(sink).unsup@) + math_unknowns(*n));
        },
        _ => {},
    }
}

/// The scripts of an attachment, by group: 0 the pre-scripts (top-left,
/// bottom-left), 1 the bottom and top scripts, 2 the post-scripts
/// (bottom-right, top-right).
pub open spec fn script_group(n: MathNode, which: int) -> (
    (char, Option<Box<MathNode>>),
    (char, Option<Box<MathNode>>),
) {
    match n {
        MathNode::Attach { base, t, b, tl, bl, tr, br } => if which == 0 {
            (('^', tl), ('_', bl))
        } else if which == 1 {
            (('_', b), ('^', t))
        } else {
            (('_', br), ('^', tr))
        },
        _ => (('^', None), ('^', None)),
    }
}

/// Emit one group of scripts of an attachment.
fn emit_script_group(n: &MathNode, which: u8, style: MathStyle, sink: &mut MathSink)
    requires
        n is Attach,
        which < 3,
    ensures
        ({
            let (p, q) = script_group(*n, which as int);
            &&& final(sink).out@ == old(sink).out@ + (script_text(p.0, p.1, style) + script_text(
                q.0,
                q.1,
                style,
            ))
            &&& final(sink).has_align == (old(sink).has_align || script_aligns(p.1)
                || script_aligns(q.1))
            &&& views(final(sink).unsup@) == views(old(sink).unsup@) + (script_unknowns(p.1)
                + script_unknowns(q.1))
        }),
    decreases n, 0int,
{
    match n {
        MathNode::Attach { base, t, b, tl, bl, tr, br } => {
            let (p, q) = if which == 0 {
                (('^', tl), ('_', bl))
            } else if which == 1 {
                (('_', b), ('^', t))
            } else {
                (('_', br), ('^', tr))
            };
            emit_script(p.0, p.1, style, sink);
            emit_script(q.0, q.1, style, sink);
            assert(views(sink.unsup@) =~= views(old(sink).unsup@) + (script_unknowns(*p.1)
                + script_unknowns(*q.1)));
            assert(sink.out@ =~= old(sink).out@ + (script_text(p.0, *p.1, style) + script_text(
                q.0,
                *q.1,
                style,
            )));
        },
        _ => {},
    }
}

/// Emit an optional sub/superscript: the marker and the script in braces.
fn emit_script(marker: char, script: &Option<Box<MathNode>>, style: MathStyle, sink: &mut MathSink)
    ensures
        final(sink).out@ == old(sink).out@ + script_text(marker, *script, style),
        final(sink).has_align == (old(sink).has_align || script_aligns(*script)),
        views(final(sink).unsup@) == views(old(sink).unsup@) + script_unknowns(*script),
    decreases script, 0int,
{
    match script {
        Some(s) => {
            push_char(&mut sink.out, marker);
            sink.out.append("{");
            emit(s, style, sink);
            sink.out.append("}");
        },
        None => {
            assert(views(sink.unsup@) =~= views(old(sink).unsup@) + script_unknowns(*script));
        },
    }
}

/// Emit a sequence of elements.
fn emit_seq(children: &Vec<MathNode>, style: MathStyle, sink: &mut MathSink)
    ensures
        final(sink).out@ == old(sink).out@ + math_text_seq(children@, style),
        final(sink).has_align == (old(sink).has_align || math_aligns_seq(children@)),
        views(final(sink).unsup@) == views(old(sink).unsup@) + math_unknowns_seq(children@),
    decreases children, 1int,
{
    emit_range(children, 0, children.len(), style, sink);
    assert(children@.subrange(0, children@.len() as int) =~= children@);
}

/// Emit the elements `lo..hi` of a sequence.
fn emit_range(children: &Vec<MathNode>, lo: usize, hi: usize, style: MathStyle, sink: &mut MathSink)
    requires
        lo <= hi <= children@.len(),
    ensures
        final(sink).out@ == old(sink).out@ + math_text_seq(children@.subrange(lo as int, hi as int), style),
        final(sink).has_align == (old(sink).has_align || math_aligns_seq(
            children@.subrange(lo as int, hi as int),
        )),
        views(final(sink).unsup@) == views(old(sink).unsup@) + math_unknowns_seq(
            children@.subrange(lo as int, hi as int),
        ),
    decreases children, 0int,
{
    let mut i: usize = lo;
    assert(views(sink.unsup@) =~= views(old(sink).unsup@) + math_unknowns_seq(
        children@.subrange(lo as int, lo as int),
    ));
    while i < hi
        invariant
            lo <= i <= hi <= children@.len(),
            sink.out@ == old(sink).out@ + math_text_seq(children@.subrange(lo as int, i as int), style),
            sink.has_align == (old(sink).has_align || math_aligns_seq(
                children@.subrange(lo as int, i as int),
            )),
            views(sink.unsup@) == views(old(sink).unsup@) + math_unknowns_seq(
                children@.subrange(lo as int, i as int),
            ),
        decreases hi - i,
    {
        assert(children@.subrange(lo as int, i + 1).drop_last() =~= children@.subrange(
            lo as int,
            i as int,
        ));
        assert(children@.subrange(lo as int, i + 1).last() == children@[i as int]);
        assert(decreases_to!(children => children@[i as int]));
        emit(&children[i], style, sink);
        i = i + 1;
        assert(views(sink.unsup@) =~= views(old(sink).unsup@) + math_unknowns_seq(
            children@.subrange(lo as int, i as int),
        ));
    }
}

/// Emit a left/right group as `\left<open> ... \right<close>` when its first
/// and last elements are delimiters, else element by element.
fn emit_lr(children: &Vec<MathNode>, style: MathStyle, sink: &mut MathSink)
    ensures
        final(sink).out@ == old(sink).out@ + math_text(MathNode::Lr(*children), style),
        final(sink).has_align == (old(sink).has_align || math_aligns(MathNode::Lr(*children))),
        views(final(sink).unsup@) == views(old(sink).unsup@) + math_unknowns(
            MathNode::Lr(*children),
        ),
    decreases children, 2int,
{
    let n = children.len();
    if n >= 2 {
        let open = delimiter_of(&children[0]);
        let close = delimiter_of(&children[n - 1]);
        match (open, close) {
            (Some(o), Some(c)) => {
                sink.out.append("\\left");
                sink.out.append(o.as_str());
                sink.out.append(" ");
                emit_range(children, 1, n - 1, style, sink);
                sink.out.append(" \\right");
                sink.out.append(c.as_str());
                proof {
                    lemma_aligns_middle(children@);
                    lemma_unknowns_middle(children@);
                }
                return ;
            },
            _ => {},
        }
    }
    emit_seq(children, style, sink);
}

/// A one-element sequence aligns as its element does, and has its unknowns.
proof fn lemma_single(x: MathNode)
    ensures
        math_aligns_seq(seq![x]) == math_aligns(x),
        math_unknowns_seq(seq![x]) == math_unknowns(x),
{
    reveal_with_fuel(math_aligns_seq, 2);
    reveal_with_fuel(math_unknowns_seq, 2);
    assert(seq![x].drop_last() =~= Seq::<MathNode>::empty());
    assert(math_unknowns_seq(seq![x]) =~= math_unknowns(x));
}

/// The first and last elements of a sequence of delimiters never align.
proof fn lemma_aligns_middle(s: Seq<MathNode>)
    requires
        s.len() >= 2,
        delimiter(s[0]) is Some,
        delimiter(s.last()) is Some,
    ensures
        math_aligns_seq(s) == math_aligns_seq(s.subrange(1, s.len() - 1)),
{
    lemma_aligns_split(s, 1);
    lemma_aligns_split(s.subrange(1, s.len() as int), s.len() - 2);
    assert(s.subrange(0, 1) =~= seq![s[0]]);
    assert(s.subrange(1, s.len() as int).subrange(0, s.len() - 2) =~= s.subrange(1, s.len() - 1));
    assert(s.subrange(1, s.len() as int).subrange(s.len() - 2, s.len() - 1) =~= seq![s.last()]);
    lemma_single(s[0]);
    lemma_single(s.last());
    assert(s[0] is Symbol || s[0] is Text);
    assert(s.last() is Symbol || s.last() is Text);
}

/// The unknown elements of a delimited group are those between the delimiters.
proof fn lemma_unknowns_middle(s: Seq<MathNode>)
    requires
        s.len() >= 2,
        delimiter(s[0]) is Some,
        delimiter(s.last()) is Some,
    ensures
        math_unknowns_seq(s) == math_unknowns_seq(s.subrange(1, s.len() - 1)),
{
    lemma_unknowns_split(s, 1);
    lemma_unknowns_split(s.subrange(1, s.len() as int), s.len() - 2);
    assert(s.subrange(0, 1) =~= seq![s[0]]);
    assert(s.subrange(1, s.len() as int).subrange(0, s.len() - 2) =~= s.subrange(1, s.len() - 1));
    assert(s.subrange(1, s.len() as int).subrange(s.len() - 2, s.len() - 1) =~= seq![s.last()]);
    lemma_single(s[0]);
    lemma_single(s.last());
    assert(s[0] is Symbol || s[0] is Text);
    assert(s.last() is Symbol || s.last() is Text);
    assert(math_unknowns_seq(s) =~= math_unknowns_seq(s.subrange(1, s.len() - 1)));
}

/// Alignment of a sequence splits at any point.
proof fn lemma_aligns_split(s: Seq<MathNode>, k: int)
    requires
        0 <= k <= s.len(),
    ensures
        math_aligns_seq(s) == (math_aligns_seq(s.subrange(0, k)) || math_aligns_seq(
            s.subrange(k, s.len() as int),
        )),
    decreases s.len(),
{
    if k < s.len() {
        lemma_aligns_split(s.drop_last(), k);
        assert(s.drop_last().subrange(0, k) =~= s.subrange(0, k));
        assert(s.subrange(k, s.len() as int).drop_last() =~= s.drop_last().subrange(
            k,
            s.len() - 1,
        ));
    } else {
        assert(s.subrange(0, k) =~= s);
        assert(s.subrange(k, s.len() as int) =~= Seq::<MathNode>::empty());
    }
}

/// Unknown elements of a sequence split at any point.
proof fn lemma_unknowns_split(s: Seq<MathNode>, k: int)
    requires
        0 <= k <= s.len(),
    ensures
        math_unknowns_seq(s) == math_unknowns_seq(s.subrange(0, k)) + math_unknowns_seq(
            s.subrange(k, s.len() as int),
        ),
    decreases s.len(),
{
    if k < s.len() {
        lemma_unknowns_split(s.drop_last(), k);
        assert(s.drop_last().subrange(0, k) =~= s.subrange(0, k));
        assert(s.subrange(k, s.len() as int).drop_last() =~= s.drop_last().subrange(
            k,
            s.len() - 1,
        ));
        assert(math_unknowns_seq(s) =~= math_unknowns_seq(s.subrange(0, k)) + math_unknowns_seq(
            s.subrange(k, s.len() as int),
        ));
    } else {
        assert(s.subrange(0, k) =~= s);
        assert(s.subrange(k, s.len() as int) =~= Seq::<MathNode>::empty());
        assert(math_unknowns_seq(s) =~= math_unknowns_seq(s.subrange(0, k)) + math_unknowns_seq(
            s.subrange(k, s.len() as int),
        ));
    }
}

/// Appends copies of `names` to `dst`.
fn append_names(dst: &mut Vec<String>, names: &Vec<String>)
    ensures
        views(final(dst)@) == views(old(dst)@) + views(names@),
{
    let mut i: usize = 0;
    while i < names.len()
        invariant
            i <= names.len(),
            views(dst@) == views(old(dst)@) + views(names@.take(i as int)),
        decreases names.len() - i,
    {
        let ghost before = views(dst@);
        let mut copy = String::new();
        copy.append(names[i].as_str());
        dst.push(copy);
        assert(views(dst@) =~= before.push(names@[i as int]@));
        i = i + 1;
        assert(views(names@.take(i as int)) =~= views(names@.take(i - 1)).push(names@[i - 1]@));
    }
    assert(names@.take(names.len() as int) =~= names@);
}

/// The records that the unknown-element names `names` leave, all at `span`.
pub open spec fn records_at(names: Seq<Seq<char>>, span: Option<SpanInfo>) -> Seq<UnsupportedView> {
    names.map_values(
        |nm: Seq<char>| UnsupportedView { name: nm, location: location_of(span), package: package_of(span) },
    )
}

/// The math source of realized parts, each under its own style.
pub open spec fn parts_text(parts: Seq<(MathNode, MathStyle)>) -> Seq<char>
    decreases parts.len(),
{
    if parts.len() == 0 {
        Seq::empty()
    } else {
        parts_text(parts.drop_last()) + math_text(parts.last().0, parts.last().1)
    }
}

/// Whether any realized part aligns.
pub open spec fn parts_align(parts: Seq<(MathNode, MathStyle)>) -> bool
    decreases parts.len(),
{
    if parts.len() == 0 {
        false
    } else {
        parts_align(parts.drop_last()) || math_aligns(parts.last().0)
    }
}

/// The unknown-element names of realized parts, in order.
pub open spec fn parts_unknowns(parts: Seq<(MathNode, MathStyle)>) -> Seq<Seq<char>>
    decreases parts.len(),
{
    if parts.len() == 0 {
        Seq::empty()
    } else {
        parts_unknowns(parts.drop_last()) + math_unknowns(parts.last().0)
    }
}

/// The LaTeX of an equation whose body renders to `inner`: display math
/// (with an `aligned` environment when the body aligns) or inline math.
pub open spec fn equation_latex(block: bool, inner: Seq<char>, aligns: bool) -> Seq<char> {
    if block {
        if aligns {
            "\\[\n\\begin{aligned}\n"@ + inner + "\n\\end{aligned}\n\\]"@
        } else {
            "\\[\n"@ + inner + "\n\\]"@
        }
    } else {
        "\\ensuremath{"@ + inner + "}"@
    }
}

/// Record each name in `names` as unsupported at `span`.
fn record_all(ctx: &mut LowerContext, names: &Vec<String>, span: &Option<SpanInfo>)
    ensures
        unsupported_views(final(ctx).unsupported@) == unsupported_views(old(ctx).unsupported@)
            + records_at(views(names@), *span),
        final(ctx).defined_labels@ == old(ctx).defined_labels@,
        final(ctx).bib_resources@ == old(ctx).bib_resources@,
        final(ctx).in_table_cell == old(ctx).in_table_cell,
{
    let mut i: usize = 0;
    while i < names.len()
        invariant
            i <= names.len(),
            unsupported_views(ctx.unsupported@) == unsupported_views(old(ctx).unsupported@)
                + records_at(views(names@.take(i as int)), *span),
            ctx.defined_labels@ == old(ctx).defined_labels@,
            ctx.bib_resources@ == old(ctx).bib_resources@,
            ctx.in_table_cell == old(ctx).in_table_cell,
        decreases names.len() - i,
    {
        let _ = ctx.record_unsupported(names[i].as_str(), span);
        i = i + 1;
        assert(records_at(views(names@.take(i as int)), *span) =~= records_at(
            views(names@.take(i - 1)),
            *span,
        ).push(
            UnsupportedView {
                name: names@[i - 1]@,
                location: location_of(*span),
                package: package_of(*span),
            },
        ));
    }
    assert(names@.take(names.len() as int) =~= names@);
}

/// Emit realized math to a LaTeX math string (no `\[ \]` / `\ensuremath`
/// wrapper) with runs of whitespace collapsed to single spaces, and say
/// whether it contains alignment points or line breaks. Unknown math
/// elements are recorded against `span`.
pub fn render_math(math: &RealizedMath, ctx: &mut LowerContext, span: &Option<SpanInfo>) -> (res: (
    String,
    bool,
))
    ensures
        res.0@ == collapse_ws(parts_text(math.parts@)),
        res.1 == parts_align(math.parts@),
        unsupported_views(final(ctx).unsupported@) == unsupported_views(old(ctx).unsupported@)
            + records_at(parts_unknowns(math.parts@), *span),
        final(ctx).defined_labels@ == old(ctx).defined_labels@,
        final(ctx).bib_resources@ == old(ctx).bib_resources@,
        final(ctx).in_table_cell == old(ctx).in_table_cell,
{
    let mut sink = MathSink { out: String::new(), has_align: false, unsup: Vec::new() };
    let mut i: usize = 0;
    while i < math.parts.len()
        invariant
            i <= math.parts@.len(),
            sink.out@ == parts_text(math.parts@.take(i as int)),
            sink.has_align == parts_align(math.parts@.take(i as int)),
            views(sink.unsup@) == parts_unknowns(math.parts@.take(i as int)),
        decreases math.parts@.len() - i,
    {
        assert(math.parts@.take(i + 1).drop_last() =~= math.parts@.take(i as int));
        let (node, style) = &math.parts[i];
        emit(node, *style, &mut sink);
        i = i + 1;
    }
    assert(math.parts@.take(math.parts@.len() as int) =~= math.parts@);
    record_all(ctx, &sink.unsup, span);
    (collapse_whitespace(sink.out.as_str()), sink.has_align)
}

/// Lower an equation to a `LatexIr::Math` node.
pub fn lower_equation(eq: &Equation, ctx: &mut LowerContext) -> (res: LatexIr)
    ensures
        res matches LatexIr::Math(m) && m@ == equation_latex(
            eq.block,
            collapse_ws(parts_text(eq.body.parts@)),
            parts_align(eq.body.parts@),
        ),
        unsupported_views(final(ctx).unsupported@) == unsupported_views(old(ctx).unsupported@)
            + records_at(parts_unknowns(eq.body.parts@), eq.span),
        final(ctx).defined_labels@ == old(ctx).defined_labels@,
        final(ctx).bib_resources@ == old(ctx).bib_resources@,
        final(ctx).in_table_cell == old(ctx).in_table_cell,
{
    let (inner, has_align) = render_math(&eq.body, ctx, &eq.span);
    let mut out = String::new();
    if eq.block {
        if has_align {
            out.append("\\[\n\\begin{aligned}\n");
            out.append(inner.as_str());
            out.append("\n\\end{aligned}\n\\]");
        } else {
            out.append("\\[\n");
            out.append(inner.as_str());
            out.append("\n\\]");
        }
    } else {
        out.append("\\ensuremath{");
        out.append(inner.as_str());
        out.append("}");
    }
    LatexIr::Math(out)
}

/// Lower a piece of math to a raw LaTeX math string (no wrapper), for
/// embedding into other LaTeX contexts such as `tikz-cd` cells and arrow
/// labels. Unknown elements are recorded against `span`.
pub fn lower_math_fragment(math: &RealizedMath, ctx: &mut LowerContext, span: &Option<SpanInfo>) -> (res: String)
    ensures
        res@ == collapse_ws(parts_text(math.parts@)),
        unsupported_views(final(ctx).unsupported@) == unsupported_views(old(ctx).unsupported@)
            + records_at(parts_unknowns(math.parts@), *span),
        final(ctx).defined_labels@ == old(ctx).defined_labels@,
        final(ctx).bib_resources@ == old(ctx).bib_resources@,
        final(ctx).in_table_cell == old(ctx).in_table_cell,
{
    render_math(math, ctx, span).0
}

} // verus!
