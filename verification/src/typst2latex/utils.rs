//! The Unicode math character to LaTeX command table used when lowering
//! evaluated math content.
use vstd::prelude::*;

verus! {

/// The LaTeX command for a Unicode math character, if the table has one.
pub open spec fn unicode_latex(c: char) -> Option<Seq<char>> {
    match c {
        '\u{3b1}' => Some("\\alpha"@),
        '\u{3b2}' => Some("\\beta"@),
        '\u{3b3}' => Some("\\gamma"@),
        '\u{3b4}' => Some("\\delta"@),
        '\u{3b5}' => Some("\\varepsilon"@),
        '\u{3f5}' => Some("\\epsilon"@),
        '\u{3b6}' => Some("\\zeta"@),
        '\u{3b7}' => Some("\\eta"@),
        '\u{3b8}' => Some("\\theta"@),
        '\u{3d1}' => Some("\\vartheta"@),
        '\u{3b9}' => Some("\\iota"@),
        '\u{3ba}' => Some("\\kappa"@),
        '\u{3bb}' => Some("\\lambda"@),
        '\u{3bc}' => Some("\\mu"@),
        '\u{3bd}' => Some("\\nu"@),
        '\u{3be}' => Some("\\xi"@),
        '\u{3c0}' => Some("\\pi"@),
        '\u{3c1}' => Some("\\rho"@),
        '\u{3f1}' => Some("\\varrho"@),
        '\u{3c3}' => Some("\\sigma"@),
        '\u{3c2}' => Some("\\varsigma"@),
        '\u{3c4}' => Some("\\tau"@),
        '\u{3c5}' => Some("\\upsilon"@),
        '\u{3c6}' => Some("\\varphi"@),
        '\u{3d5}' => Some("\\phi"@),
        '\u{3c7}' => Some("\\chi"@),
        '\u{3c8}' => Some("\\psi"@),
        '\u{3c9}' => Some("\\omega"@),
        '\u{391}' => Some("A"@),
        '\u{392}' => Some("B"@),
        '\u{393}' => Some("\\Gamma"@),
        '\u{394}' => Some("\\Delta"@),
        '\u{395}' => Some("E"@),
        '\u{396}' => Some("Z"@),
        '\u{397}' => Some("H"@),
        '\u{398}' => Some("\\Theta"@),
        '\u{399}' => Some("I"@),
        '\u{39a}' => Some("K"@),
        '\u{39b}' => Some("\\Lambda"@),
        '\u{39c}' => Some("M"@),
        '\u{39d}' => Some("N"@),
        '\u{39e}' => Some("\\Xi"@),
        '\u{39f}' => Some("O"@),
        '\u{3a0}' => Some("\\Pi"@),
        '\u{3a1}' => Some("P"@),
        '\u{3a3}' => Some("\\Sigma"@),
        '\u{3a4}' => Some("T"@),
        '\u{3a5}' => Some("\\Upsilon"@),
        '\u{3a6}' => Some("\\Phi"@),
        '\u{3a7}' => Some("X"@),
        '\u{3a8}' => Some("\\Psi"@),
        '\u{3a9}' => Some("\\Omega"@),
        '\u{221e}' => Some("\\infty"@),
        '\u{2202}' => Some("\\partial"@),
        '\u{2207}' => Some("\\nabla"@),
        '\u{2208}' => Some("\\in"@),
        '\u{2209}' => Some("\\notin"@),
        '\u{220b}' => Some("\\ni"@),
        '\u{2205}' => Some("\\emptyset"@),
        '\u{2200}' => Some("\\forall"@),
        '\u{2203}' => Some("\\exists"@),
        '\u{ac}' => Some("\\neg"@),
        '\u{2227}' => Some("\\land"@),
        '\u{2228}' => Some("\\lor"@),
        '\u{2229}' => Some("\\cap"@),
        '\u{222a}' => Some("\\cup"@),
        '\u{2282}' => Some("\\subset"@),
        '\u{2283}' => Some("\\supset"@),
        '\u{2286}' => Some("\\subseteq"@),
        '\u{2287}' => Some("\\supseteq"@),
        '\u{d7}' => Some("\\times"@),
        '\u{f7}' => Some("\\div"@),
        '\u{b1}' => Some("\\pm"@),
        '\u{2213}' => Some("\\mp"@),
        '\u{b7}' => Some("\\cdot"@),
        '\u{2218}' => Some("\\circ"@),
        '\u{2295}' => Some("\\oplus"@),
        '\u{2297}' => Some("\\otimes"@),
        '\u{22b8}' => Some("\\multimap"@),
        '\u{228e}' => Some("\\uplus"@),
        '\u{22c6}' => Some("\\star"@),
        '\u{22c5}' => Some("\\cdot"@),
        '\u{2a74}' => Some("\\Coloneqq"@),
        '\u{27e6}' => Some("\\llbracket"@),
        '\u{27e7}' => Some("\\rrbracket"@),
        '\u{2020}' => Some("\\dagger"@),
        '\u{2021}' => Some("\\ddagger"@),
        '\u{2605}' => Some("\\star"@),
        '\u{2260}' => Some("\\neq"@),
        '\u{2248}' => Some("\\approx"@),
        '\u{2261}' => Some("\\equiv"@),
        '\u{2264}' => Some("\\leq"@),
        '\u{2265}' => Some("\\geq"@),
        '\u{226a}' => Some("\\ll"@),
        '\u{226b}' => Some("\\gg"@),
        '\u{227a}' => Some("\\prec"@),
        '\u{227b}' => Some("\\succ"@),
        '\u{223c}' => Some("\\sim"@),
        '\u{2243}' => Some("\\simeq"@),
        '\u{2245}' => Some("\\cong"@),
        '\u{221d}' => Some("\\propto"@),
        '\u{22a5}' => Some("\\perp"@),
        '\u{2225}' => Some("\\parallel"@),
        '\u{22a2}' => Some("\\vdash"@),
        '\u{22a3}' => Some("\\dashv"@),
        '\u{22a8}' => Some("\\models"@),
        '\u{2192}' => Some("\\rightarrow"@),
        '\u{2190}' => Some("\\leftarrow"@),
        '\u{2194}' => Some("\\leftrightarrow"@),
        '\u{21d2}' => Some("\\Rightarrow"@),
        '\u{21d0}' => Some("\\Leftarrow"@),
        '\u{21d4}' => Some("\\Leftrightarrow"@),
        '\u{21a6}' => Some("\\mapsto"@),
        '\u{2191}' => Some("\\uparrow"@),
        '\u{2193}' => Some("\\downarrow"@),
        '\u{2197}' => Some("\\nearrow"@),
        '\u{2198}' => Some("\\searrow"@),
        '\u{2199}' => Some("\\swarrow"@),
        '\u{2196}' => Some("\\nwarrow"@),
        '\u{27f6}' => Some("\\longrightarrow"@),
        '\u{27f5}' => Some("\\longleftarrow"@),
        '\u{27f9}' => Some("\\Longrightarrow"@),
        '\u{27f8}' => Some("\\Longleftarrow"@),
        '\u{2211}' => Some("\\sum"@),
        '\u{220f}' => Some("\\prod"@),
        '\u{222b}' => Some("\\int"@),
        '\u{222c}' => Some("\\iint"@),
        '\u{222d}' => Some("\\iiint"@),
        '\u{222e}' => Some("\\oint"@),
        '\u{22c2}' => Some("\\bigcap"@),
        '\u{22c3}' => Some("\\bigcup"@),
        '\u{22c0}' => Some("\\bigwedge"@),
        '\u{22c1}' => Some("\\bigvee"@),
        '\u{27e8}' => Some("\\langle"@),
        '\u{27e9}' => Some("\\rangle"@),
        '\u{2308}' => Some("\\lceil"@),
        '\u{2309}' => Some("\\rceil"@),
        '\u{230a}' => Some("\\lfloor"@),
        '\u{230b}' => Some("\\rfloor"@),
        '\u{2016}' => Some("\\|"@),
        '\u{2026}' => Some("\\ldots"@),
        '\u{22ef}' => Some("\\cdots"@),
        '\u{22ee}' => Some("\\vdots"@),
        '\u{22f1}' => Some("\\ddots"@),
        '\u{2115}' => Some("\\mathbb{N}"@),
        '\u{2124}' => Some("\\mathbb{Z}"@),
        '\u{211a}' => Some("\\mathbb{Q}"@),
        '\u{211d}' => Some("\\mathbb{R}"@),
        '\u{2102}' => Some("\\mathbb{C}"@),
        '\u{2113}' => Some("\\ell"@),
        '\u{210f}' => Some("\\hbar"@),
        '\u{2118}' => Some("\\wp"@),
        '\u{2111}' => Some("\\Im"@),
        '\u{211c}' => Some("\\Re"@),
        '\u{2135}' => Some("\\aleph"@),
        '\u{25a1}' => Some("\\square"@),
        '\u{25c7}' => Some("\\diamond"@),
        '\u{25b3}' => Some("\\triangle"@),
        '\u{25bd}' => Some("\\triangledown"@),
        '\u{2660}' => Some("\\spadesuit"@),
        '\u{2665}' => Some("\\heartsuit"@),
        '\u{2666}' => Some("\\diamondsuit"@),
        '\u{2663}' => Some("\\clubsuit"@),
        '\u{2032}' => Some("'"@),
        '\u{2033}' => Some("''"@),
        '\u{b0}' => Some("^\\circ"@),
        _ => None,
    }
}

/// Looks up the LaTeX command for a Unicode math character: Greek letters,
/// operators, relations, arrows, big operators, delimiters, dots and a few
/// letter-like symbols.
pub fn unicode_to_latex(c: char) -> (res: Option<&'static str>)
    ensures
        match res {
            Some(r) => unicode_latex(c) == Some(r@),
            None => unicode_latex(c) is None,
        },
{
    match c {
        '\u{3b1}' => Some("\\alpha"),
        '\u{3b2}' => Some("\\beta"),
        '\u{3b3}' => Some("\\gamma"),
        '\u{3b4}' => Some("\\delta"),
        '\u{3b5}' => Some("\\varepsilon"),
        '\u{3f5}' => Some("\\epsilon"),
        '\u{3b6}' => Some("\\zeta"),
        '\u{3b7}' => Some("\\eta"),
        '\u{3b8}' => Some("\\theta"),
        '\u{3d1}' => Some("\\vartheta"),
        '\u{3b9}' => Some("\\iota"),
        '\u{3ba}' => Some("\\kappa"),
        '\u{3bb}' => Some("\\lambda"),
        '\u{3bc}' => Some("\\mu"),
        '\u{3bd}' => Some("\\nu"),
        '\u{3be}' => Some("\\xi"),
        '\u{3c0}' => Some("\\pi"),
        '\u{3c1}' => Some("\\rho"),
        '\u{3f1}' => Some("\\varrho"),
        '\u{3c3}' => Some("\\sigma"),
        '\u{3c2}' => Some("\\varsigma"),
        '\u{3c4}' => Some("\\tau"),
        '\u{3c5}' => Some("\\upsilon"),
        '\u{3c6}' => Some("\\varphi"),
        '\u{3d5}' => Some("\\phi"),
        '\u{3c7}' => Some("\\chi"),
        '\u{3c8}' => Some("\\psi"),
        '\u{3c9}' => Some("\\omega"),
        '\u{391}' => Some("A"),
        '\u{392}' => Some("B"),
        '\u{393}' => Some("\\Gamma"),
        '\u{394}' => Some("\\Delta"),
        '\u{395}' => Some("E"),
        '\u{396}' => Some("Z"),
        '\u{397}' => Some("H"),
        '\u{398}' => Some("\\Theta"),
        '\u{399}' => Some("I"),
        '\u{39a}' => Some("K"),
        '\u{39b}' => Some("\\Lambda"),
        '\u{39c}' => Some("M"),
        '\u{39d}' => Some("N"),
        '\u{39e}' => Some("\\Xi"),
        '\u{39f}' => Some("O"),
        '\u{3a0}' => Some("\\Pi"),
        '\u{3a1}' => Some("P"),
        '\u{3a3}' => Some("\\Sigma"),
        '\u{3a4}' => Some("T"),
        '\u{3a5}' => Some("\\Upsilon"),
        '\u{3a6}' => Some("\\Phi"),
        '\u{3a7}' => Some("X"),
        '\u{3a8}' => Some("\\Psi"),
        '\u{3a9}' => Some("\\Omega"),
        '\u{221e}' => Some("\\infty"),
        '\u{2202}' => Some("\\partial"),
        '\u{2207}' => Some("\\nabla"),
        '\u{2208}' => Some("\\in"),
        '\u{2209}' => Some("\\notin"),
        '\u{220b}' => Some("\\ni"),
        '\u{2205}' => Some("\\emptyset"),
        '\u{2200}' => Some("\\forall"),
        '\u{2203}' => Some("\\exists"),
        '\u{ac}' => Some("\\neg"),
        '\u{2227}' => Some("\\land"),
        '\u{2228}' => Some("\\lor"),
        '\u{2229}' => Some("\\cap"),
        '\u{222a}' => Some("\\cup"),
        '\u{2282}' => Some("\\subset"),
        '\u{2283}' => Some("\\supset"),
        '\u{2286}' => Some("\\subseteq"),
        '\u{2287}' => Some("\\supseteq"),
        '\u{d7}' => Some("\\times"),
        '\u{f7}' => Some("\\div"),
        '\u{b1}' => Some("\\pm"),
        '\u{2213}' => Some("\\mp"),
        '\u{b7}' => Some("\\cdot"),
        '\u{2218}' => Some("\\circ"),
        '\u{2295}' => Some("\\oplus"),
        '\u{2297}' => Some("\\otimes"),
        '\u{22b8}' => Some("\\multimap"),
        '\u{228e}' => Some("\\uplus"),
        '\u{22c6}' => Some("\\star"),
        '\u{22c5}' => Some("\\cdot"),
        '\u{2a74}' => Some("\\Coloneqq"),
        '\u{27e6}' => Some("\\llbracket"),
        '\u{27e7}' => Some("\\rrbracket"),
        '\u{2020}' => Some("\\dagger"),
        '\u{2021}' => Some("\\ddagger"),
        '\u{2605}' => Some("\\star"),
        '\u{2260}' => Some("\\neq"),
        '\u{2248}' => Some("\\approx"),
        '\u{2261}' => Some("\\equiv"),
        '\u{2264}' => Some("\\leq"),
        '\u{2265}' => Some("\\geq"),
        '\u{226a}' => Some("\\ll"),
        '\u{226b}' => Some("\\gg"),
        '\u{227a}' => Some("\\prec"),
        '\u{227b}' => Some("\\succ"),
        '\u{223c}' => Some("\\sim"),
        '\u{2243}' => Some("\\simeq"),
        '\u{2245}' => Some("\\cong"),
        '\u{221d}' => Some("\\propto"),
        '\u{22a5}' => Some("\\perp"),
        '\u{2225}' => Some("\\parallel"),
        '\u{22a2}' => Some("\\vdash"),
        '\u{22a3}' => Some("\\dashv"),
        '\u{22a8}' => Some("\\models"),
        '\u{2192}' => Some("\\rightarrow"),
        '\u{2190}' => Some("\\leftarrow"),
        '\u{2194}' => Some("\\leftrightarrow"),
        '\u{21d2}' => Some("\\Rightarrow"),
        '\u{21d0}' => Some("\\Leftarrow"),
        '\u{21d4}' => Some("\\Leftrightarrow"),
        '\u{21a6}' => Some("\\mapsto"),
        '\u{2191}' => Some("\\uparrow"),
        '\u{2193}' => Some("\\downarrow"),
        '\u{2197}' => Some("\\nearrow"),
        '\u{2198}' => Some("\\searrow"),
        '\u{2199}' => Some("\\swarrow"),
        '\u{2196}' => Some("\\nwarrow"),
        '\u{27f6}' => Some("\\longrightarrow"),
        '\u{27f5}' => Some("\\longleftarrow"),
        '\u{27f9}' => Some("\\Longrightarrow"),
        '\u{27f8}' => Some("\\Longleftarrow"),
        '\u{2211}' => Some("\\sum"),
        '\u{220f}' => Some("\\prod"),
        '\u{222b}' => Some("\\int"),
        '\u{222c}' => Some("\\iint"),
        '\u{222d}' => Some("\\iiint"),
        '\u{222e}' => Some("\\oint"),
        '\u{22c2}' => Some("\\bigcap"),
        '\u{22c3}' => Some("\\bigcup"),
        '\u{22c0}' => Some("\\bigwedge"),
        '\u{22c1}' => Some("\\bigvee"),
        '\u{27e8}' => Some("\\langle"),
        '\u{27e9}' => Some("\\rangle"),
        '\u{2308}' => Some("\\lceil"),
        '\u{2309}' => Some("\\rceil"),
        '\u{230a}' => Some("\\lfloor"),
        '\u{230b}' => Some("\\rfloor"),
        '\u{2016}' => Some("\\|"),
        '\u{2026}' => Some("\\ldots"),
        '\u{22ef}' => Some("\\cdots"),
        '\u{22ee}' => Some("\\vdots"),
        '\u{22f1}' => Some("\\ddots"),
        '\u{2115}' => Some("\\mathbb{N}"),
        '\u{2124}' => Some("\\mathbb{Z}"),
        '\u{211a}' => Some("\\mathbb{Q}"),
        '\u{211d}' => Some("\\mathbb{R}"),
        '\u{2102}' => Some("\\mathbb{C}"),
        '\u{2113}' => Some("\\ell"),
        '\u{210f}' => Some("\\hbar"),
        '\u{2118}' => Some("\\wp"),
        '\u{2111}' => Some("\\Im"),
        '\u{211c}' => Some("\\Re"),
        '\u{2135}' => Some("\\aleph"),
        '\u{25a1}' => Some("\\square"),
        '\u{25c7}' => Some("\\diamond"),
        '\u{25b3}' => Some("\\triangle"),
        '\u{25bd}' => Some("\\triangledown"),
        '\u{2660}' => Some("\\spadesuit"),
        '\u{2665}' => Some("\\heartsuit"),
        '\u{2666}' => Some("\\diamondsuit"),
        '\u{2663}' => Some("\\clubsuit"),
        '\u{2032}' => Some("'"),
        '\u{2033}' => Some("''"),
        '\u{b0}' => Some("^\\circ"),
        _ => None,
    }
}

} // verus!
