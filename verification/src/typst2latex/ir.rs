//! The LaTeX intermediate representation and its rendering to LaTeX source.
use vstd::prelude::*;

use crate::strings::{
    chars_of, concat, has_char, join, push_char, push_joined, push_repeated, push_replaced, repeat,
    replace_char, views,
};

verus! {

/// A LaTeX document fragment, built by lowering evaluated Typst content.
#[derive(Debug)]
pub enum LatexIr {
    Document(Vec<LatexIr>),
    Sequence(Vec<LatexIr>),
    /// A sectioning heading; unnumbered headings use the starred command.
    Heading { level: usize, numbered: bool, content: Box<LatexIr> },
    Item(Box<LatexIr>),
    List(Vec<LatexIr>),
    NumberedList(Vec<LatexIr>),
    Raw(String, Option<String>),
    Link(String, Option<Box<LatexIr>>),
    SmartQuote(bool),
    Space,
    Text(String),
    Latex(String),
    Math(String),
    InferenceRule { premises: Vec<LatexIr>, conclusion: Box<LatexIr> },
    RuleGroup(Vec<LatexIr>),
    Parbreak,
    Block(Box<LatexIr>),
    Strong(Box<LatexIr>),
    Emph(Box<LatexIr>),
    Reference(String),
    Figure { body: Box<LatexIr>, caption: Option<Box<LatexIr>> },
    Table { cols: usize, rows: Vec<Vec<LatexIr>> },
    Unsupported(String),
    Footnote(Box<LatexIr>),
    Cite(Vec<String>),
    TheoremEnv { env: String, title: Option<Box<LatexIr>>, body: Box<LatexIr> },
}

/// What one character of a text run becomes in LaTeX: the reserved
/// characters are escaped, variation selectors dropped, check marks and the
/// ellipsis turned into commands, everything else kept.
pub open spec fn escape_char(c: char) -> Seq<char> {
    if c == '\\' {
        "\\textbackslash "@
    } else if c == '#' {
        "\\#"@
    } else if c == '%' {
        "\\%"@
    } else if c == '&' {
        "\\&"@
    } else if c == '_' {
        "\\_"@
    } else if c == '$' {
        "\\$"@
    } else if c == '{' {
        "\\{"@
    } else if c == '}' {
        "\\}"@
    } else if c == '^' {
        "\\textasciicircum "@
    } else if c == '~' {
        "\\textasciitilde "@
    } else if c == '\u{FE0F}' || c == '\u{FE0E}' {
        Seq::empty()
    } else if c == '\u{2705}' || c == '\u{2714}' || c == '\u{2713}' {
        "\\checkmark{}"@
    } else if c == '\u{2026}' {
        "\\ldots{}"@
    } else {
        seq![c]
    }
}

/// A text run escaped for LaTeX, character by character.
pub open spec fn escaped(s: Seq<char>) -> Seq<char>
    decreases s.len(),
{
    if s.len() == 0 {
        Seq::empty()
    } else {
        escaped(s.drop_last()) + escape_char(s.last())
    }
}

/// Escaping works character by character: escaping a concatenation is
/// concatenating the escapes.
pub proof fn law_escape_concat(a: Seq<char>, b: Seq<char>)
    ensures
        escaped(a + b) == escaped(a) + escaped(b),
    decreases b.len(),
{
    if b.len() == 0 {
        assert(a + b =~= a);
        assert(escaped(a) + escaped(b) =~= escaped(a));
    } else {
        law_escape_concat(a, b.drop_last());
        assert((a + b).drop_last() =~= a + b.drop_last());
        assert((a + b).last() == b.last());
        assert(escaped(a + b) =~= escaped(a) + escaped(b));
    }
}

/// The sectioning command for a heading level.
pub open spec fn heading_cmd(level: usize) -> Seq<char> {
    if level == 1 {
        "section"@
    } else if level == 2 {
        "subsection"@
    } else if level == 3 {
        "subsubsection"@
    } else if level == 4 {
        "paragraph"@
    } else {
        "subparagraph"@
    }
}

/// The mathematical content of a [`LatexIr`]: the same tree with every
/// string taken by its characters.
pub enum LatexTree {
    Document(Seq<LatexTree>),
    Sequence(Seq<LatexTree>),
    Heading { level: usize, numbered: bool, content: Box<LatexTree> },
    Item(Box<LatexTree>),
    List(Seq<LatexTree>),
    NumberedList(Seq<LatexTree>),
    Raw(Seq<char>, Option<Seq<char>>),
    Link(Seq<char>, Option<Box<LatexTree>>),
    SmartQuote(bool),
    Space,
    Text(Seq<char>),
    Latex(Seq<char>),
    Math(Seq<char>),
    InferenceRule { premises: Seq<LatexTree>, conclusion: Box<LatexTree> },
    RuleGroup(Seq<LatexTree>),
    Parbreak,
    Block(Box<LatexTree>),
    Strong(Box<LatexTree>),
    Emph(Box<LatexTree>),
    Reference(Seq<char>),
    Figure { body: Box<LatexTree>, caption: Option<Box<LatexTree>> },
    Table { cols: usize, rows: Seq<Seq<LatexTree>> },
    Unsupported(Seq<char>),
    Footnote(Box<LatexTree>),
    Cite(Seq<Seq<char>>),
    TheoremEnv { env: Seq<char>, title: Option<Box<LatexTree>>, body: Box<LatexTree> },
}

/// The content of an optional string.
pub open spec fn opt_chars(o: Option<String>) -> Option<Seq<char>> {
    match o {
        Some(s) => Some(s@),
        None => None,
    }
}

/// The mathematical content of an IR fragment.
pub open spec fn tree(ir: LatexIr) -> LatexTree
    decreases ir,
{
    match ir {
        LatexIr::Document(children) => LatexTree::Document(trees(children@)),
        LatexIr::Sequence(children) => LatexTree::Sequence(trees(children@)),
        LatexIr::Heading { level, numbered, content } => LatexTree::Heading {
            level,
            numbered,
            content: Box::new(tree(*content)),
        },
        LatexIr::Item(content) => LatexTree::Item(Box::new(tree(*content))),
        LatexIr::List(items) => LatexTree::List(trees(items@)),
        LatexIr::NumberedList(items) => LatexTree::NumberedList(trees(items@)),
        LatexIr::Raw(text, lang) => LatexTree::Raw(text@, opt_chars(lang)),
        LatexIr::Link(url, display) => LatexTree::Link(
            url@,
            match display {
                Some(d) => Some(Box::new(tree(*d))),
                None => None,
            },
        ),
        LatexIr::SmartQuote(double) => LatexTree::SmartQuote(double),
        LatexIr::Space => LatexTree::Space,
        LatexIr::Text(text) => LatexTree::Text(text@),
        LatexIr::Latex(latex) => LatexTree::Latex(latex@),
        LatexIr::Math(math) => LatexTree::Math(math@),
        LatexIr::InferenceRule { premises, conclusion } => LatexTree::InferenceRule {
            premises: trees(premises@),
            conclusion: Box::new(tree(*conclusion)),
        },
        LatexIr::RuleGroup(rules) => LatexTree::RuleGroup(trees(rules@)),
        LatexIr::Parbreak => LatexTree::Parbreak,
        LatexIr::Block(content) => LatexTree::Block(Box::new(tree(*content))),
        LatexIr::Strong(content) => LatexTree::Strong(Box::new(tree(*content))),
        LatexIr::Emph(content) => LatexTree::Emph(Box::new(tree(*content))),
        LatexIr::Reference(label) => LatexTree::Reference(label@),
        LatexIr::Figure { body, caption } => LatexTree::Figure {
            body: Box::new(tree(*body)),
            caption: match caption {
                Some(c) => Some(Box::new(tree(*c))),
                None => None,
            },
        },
        LatexIr::Table { cols, rows } => LatexTree::Table { cols, rows: tree_rows(rows@) },
        LatexIr::Unsupported(name) => LatexTree::Unsupported(name@),
        LatexIr::Footnote(content) => LatexTree::Footnote(Box::new(tree(*content))),
        LatexIr::Cite(keys) => LatexTree::Cite(views(keys@)),
        LatexIr::TheoremEnv { env, title, body } => LatexTree::TheoremEnv {
            env: env@,
            title: match title {
                Some(t) => Some(Box::new(tree(*t))),
                None => None,
            },
            body: Box::new(tree(*body)),
        },
    }
}

/// The contents of a sequence of IR fragments.
pub open spec fn trees(s: Seq<LatexIr>) -> Seq<LatexTree>
    decreases s,
{
    if s.len() == 0 {
        Seq::empty()
    } else {
        trees(s.drop_last()).push(tree(s.last()))
    }
}

/// The contents of the rows of a table.
pub open spec fn tree_rows(rows: Seq<Vec<LatexIr>>) -> Seq<Seq<LatexTree>>
    decreases rows,
{
    if rows.len() == 0 {
        Seq::empty()
    } else {
        tree_rows(rows.drop_last()).push(trees(rows.last()@))
    }
}

/// The contents of a sequence of fragments are taken element by element.
pub proof fn lemma_trees(s: Seq<LatexIr>)
    ensures
        trees(s).len() == s.len(),
        forall|i: int| 0 <= i < s.len() ==> #[trigger] trees(s)[i] == tree(s[i]),
    decreases s.len(),
{
    if s.len() > 0 {
        lemma_trees(s.drop_last());
    }
}

/// The contents of a grown sequence.
pub proof fn lemma_trees_push(s: Seq<LatexIr>, x: LatexIr)
    ensures
        trees(s.push(x)) == trees(s).push(tree(x)),
{
    lemma_trees(s.push(x));
    lemma_trees(s);
    assert(trees(s.push(x)) =~= trees(s).push(tree(x)));
}

/// The contents of a part of a sequence.
pub proof fn lemma_trees_subrange(s: Seq<LatexIr>, a: int, b: int)
    requires
        0 <= a <= b <= s.len(),
    ensures
        trees(s.subrange(a, b)) == trees(s).subrange(a, b),
{
    lemma_trees(s.subrange(a, b));
    lemma_trees(s);
    assert(trees(s.subrange(a, b)) =~= trees(s).subrange(a, b));
}

impl View for LatexIr {
    type V = LatexTree;

    open spec fn view(&self) -> LatexTree {
        tree(*self)
    }
}

/// The LaTeX source of `ir`.
pub open spec fn rendered(ir: LatexTree) -> Seq<char>
    decreases ir,
{
    match ir {
        LatexTree::Document(children) => rendered_join(children, Seq::empty()),
        LatexTree::Sequence(children) => rendered_join(children, Seq::empty()),
        LatexTree::Heading { level, numbered, content } => "\\"@ + heading_cmd(level) + (if numbered {
            Seq::empty()
        } else {
            "*"@
        }) + "{"@ + rendered(*content) + "}\n"@,
        LatexTree::Item(content) => "\\item "@ + rendered(*content) + "\n"@,
        LatexTree::List(items) => "\\begin{itemize}\n"@ + rendered_join(items, Seq::empty())
            + "\\end{itemize}\n"@,
        LatexTree::NumberedList(items) => "\\begin{enumerate}\n"@ + rendered_join(items, Seq::empty())
            + "\\end{enumerate}\n"@,
        LatexTree::Raw(text, _lang) => if text.contains('\n') {
            "\\begin{verbatim}\n"@ + text + "\n\\end{verbatim}\n"@
        } else {
            "\\verb|"@ + replace_char(text, '|', "\\|"@) + "|"@
        },
        LatexTree::Link(url, display) => match display {
            Some(disp) => "\\href{"@ + url + "}{"@ + rendered(*disp) + "}"@,
            None => "\\url{"@ + url + "}"@,
        },
        LatexTree::SmartQuote(_) => "\""@,
        LatexTree::Space => " "@,
        LatexTree::Text(text) => escaped(text),
        LatexTree::Latex(latex) => latex,
        LatexTree::Math(math) => math,
        LatexTree::InferenceRule { premises, conclusion } => "\\inferrule{"@ + rendered_join(
            premises,
            " \\\\ "@,
        ) + "}{"@ + rendered(*conclusion) + "}"@,
        LatexTree::RuleGroup(rules) => "\\begin{mathpar}\n"@ + rendered_join(rules, "\n\n"@)
            + "\n\\end{mathpar}\n"@,
        LatexTree::Parbreak => "\n\n"@,
        LatexTree::Block(content) => rendered(*content),
        LatexTree::Strong(content) => "\\textbf{"@ + rendered(*content) + "}"@,
        LatexTree::Emph(content) => "\\emph{"@ + rendered(*content) + "}"@,
        LatexTree::Reference(label) => "\\ref{"@ + label + "}"@,
        LatexTree::Figure { body, caption } => "\\begin{figure}[htbp]\n\\centering\n"@ + rendered(*body)
            + "\n"@ + match caption {
            Some(c) => "\\caption{"@ + rendered(*c) + "}\n"@,
            None => Seq::empty(),
        } + "\\end{figure}\n"@,
        LatexTree::Table { cols, rows } => "\\begin{tabular}{"@ + repeat(
            "l"@,
            if cols < 1 {
                1nat
            } else {
                cols as nat
            },
        ) + "}\n\\hline\n"@ + rendered_rows(rows) + "\\hline\n\\end{tabular}\n"@,
        LatexTree::Unsupported(name) => "\\texttt{[unsupported Typst element: "@ + name + "]}"@,
        LatexTree::Footnote(content) => "\\footnote{"@ + rendered(*content) + "}"@,
        LatexTree::Cite(keys) => "\\cite{"@ + join(keys, ","@) + "}"@,
        LatexTree::TheoremEnv { env, title, body } => "\\begin{"@ + env + "}"@ + match title {
            Some(t) => "["@ + rendered(*t) + "]"@,
            None => Seq::empty(),
        } + "\n"@ + rendered(*body) + "\n\\end{"@ + env + "}\n"@,
    }
}

/// The renderings of `items` joined with `sep`.
pub open spec fn rendered_join(items: Seq<LatexTree>, sep: Seq<char>) -> Seq<char>
    decreases items,
{
    if items.len() == 0 {
        Seq::empty()
    } else if items.len() == 1 {
        rendered(items[0])
    } else {
        rendered_join(items.drop_last(), sep) + sep + rendered(items.last())
    }
}

/// What each of `items` renders to.
pub open spec fn renders(items: Seq<LatexTree>) -> Seq<Seq<char>> {
    items.map_values(|x: LatexTree| rendered(x))
}

/// Joined without a separator, the items render one after the other.
pub proof fn lemma_join_concat(items: Seq<LatexTree>)
    ensures
        rendered_join(items, Seq::empty()) == concat(renders(items)),
    decreases items.len(),
{
    if items.len() == 1 {
        let r = renders(items);
        assert(r.len() == 1 && r[0] == rendered(items[0]));
        assert(r.drop_last() =~= Seq::<Seq<char>>::empty());
        assert(concat(r.drop_last()) == Seq::<char>::empty());
        assert(concat(r) =~= rendered(items[0]));
    } else if items.len() > 1 {
        lemma_join_concat(items.drop_last());
        assert(renders(items).drop_last() =~= renders(items.drop_last()));
        assert(renders(items).last() == rendered(items.last()));
        assert(rendered_join(items, Seq::empty()) =~= rendered_join(items.drop_last(), Seq::empty()) + rendered(
            items.last(),
        ));
    }
}

/// A sequence and a document render as the concatenation of what their
/// children render to (nothing for no children); a bulleted or numbered
/// list renders as that concatenation of its items inside an `itemize` or
/// `enumerate` environment.
pub proof fn law_render_concatenation(items: Seq<LatexTree>)
    ensures
        rendered(LatexTree::Sequence(items)) == concat(renders(items)),
        rendered(LatexTree::Document(items)) == concat(renders(items)),
        rendered(LatexTree::List(items)) == "\\begin{itemize}\n"@ + concat(renders(items)) + "\\end{itemize}\n"@,
        rendered(LatexTree::NumberedList(items)) == "\\begin{enumerate}\n"@ + concat(renders(items))
            + "\\end{enumerate}\n"@,
{
    lemma_join_concat(items);
}

/// The body of a tabular: each row's cells joined with ` & `, each row ended
/// by ` \\` and a newline.
pub open spec fn rendered_rows(rows: Seq<Seq<LatexTree>>) -> Seq<char>
    decreases rows,
{
    if rows.len() == 0 {
        Seq::empty()
    } else {
        rendered_rows(rows.drop_last()) + rendered_join(rows.last(), " & "@) + " \\\\\n"@
    }
}

/// Escape a text run for LaTeX: escape the reserved characters and turn a
/// few Unicode symbols/emoji that would otherwise emit "Missing character"
/// warnings into commands. fontspec/XeTeX handles the rest of Unicode text
/// directly.
pub fn escape_text(text: &str) -> (res: String)
    ensures
        res@ == escaped(text@),
{
    let mut out = String::new();
    push_escaped(&mut out, text);
    out
}

fn push_escaped(out: &mut String, text: &str)
    ensures
        final(out)@ == old(out)@ + escaped(text@),
{
    let cs = chars_of(text);
    let mut i: usize = 0;
    while i < cs.len()
        invariant
            cs@ == text@,
            i <= cs.len(),
            out@ == old(out)@ + escaped(cs@.take(i as int)),
        decreases cs.len() - i,
    {
        assert(cs@.take(i + 1).drop_last() =~= cs@.take(i as int));
        let ch = cs[i];
        match ch {
            '\\' => out.append("\\textbackslash "),
            '#' => out.append("\\#"),
            '%' => out.append("\\%"),
            '&' => out.append("\\&"),
            '_' => out.append("\\_"),
            '$' => out.append("\\$"),
            '{' => out.append("\\{"),
            '}' => out.append("\\}"),
            '^' => out.append("\\textasciicircum "),
            '~' => out.append("\\textasciitilde "),
            '\u{FE0F}' | '\u{FE0E}' => {},
            '\u{2705}' | '\u{2714}' | '\u{2713}' => out.append("\\checkmark{}"),
            '\u{2026}' => out.append("\\ldots{}"),
            _ => push_char(out, ch),
        }
        i = i + 1;
    }
    assert(cs@.take(cs.len() as int) =~= cs@);
}

fn heading_command(level: usize) -> (res: &'static str)
    ensures
        res@ == heading_cmd(level),
{
    match level {
        1 => "section",
        2 => "subsection",
        3 => "subsubsection",
        4 => "paragraph",
        _ => "subparagraph",
    }
}

impl LatexIr {
    /// The LaTeX source of this fragment.
    pub fn render(&self) -> (res: String)
        ensures
            res@ == rendered(self@),
    {
        let mut out = String::new();
        self.render_into(&mut out);
        out
    }

    /// Appends the LaTeX source of this fragment to `out`.
    #[verifier::spinoff_prover]
    #[verifier::rlimit(80)]
    pub fn render_into(&self, out: &mut String)
        ensures
            final(out)@ == old(out)@ + rendered(self@),
        decreases self,
    {
        proof {
            reveal_strlit("");
            assert(""@ =~= Seq::<char>::empty());
        }
        match self {
            LatexIr::Document(children) => {
                render_join_into(children, "", out);
            },
            LatexIr::Sequence(children) => {
                render_join_into(children, "", out);
            },
            LatexIr::Heading { level, numbered, content } => {
                out.append("\\");
                out.append(heading_command(*level));
                if !*numbered {
                    out.append("*");
                }
                out.append("{");
                content.render_into(out);
                out.append("}\n");
            },
            LatexIr::Item(content) => {
                out.append("\\item ");
                content.render_into(out);
                out.append("\n");
            },
            LatexIr::List(items) => {
                out.append("\\begin{itemize}\n");
                render_join_into(items, "", out);
                out.append("\\end{itemize}\n");
            },
            LatexIr::NumberedList(items) => {
                out.append("\\begin{enumerate}\n");
                render_join_into(items, "", out);
                out.append("\\end{enumerate}\n");
            },
            LatexIr::Raw(text, _lang) => {
                if has_char(text.as_str(), '\n') {
                    out.append("\\begin{verbatim}\n");
                    out.append(text.as_str());
                    out.append("\n\\end{verbatim}\n");
                } else {
                    out.append("\\verb|");
                    push_replaced(out, text.as_str(), '|', "\\|");
                    out.append("|");
                }
            },
            LatexIr::Link(url, display) => {
                match display {
                    Some(disp) => {
                        out.append("\\href{");
                        out.append(url.as_str());
                        out.append("}{");
                        disp.render_into(out);
                        out.append("}");
                    },
                    None => {
                        out.append("\\url{");
                        out.append(url.as_str());
                        out.append("}");
                    },
                }
            },
            LatexIr::SmartQuote(_) => {
                out.append("\"");
            },
            LatexIr::Space => {
                out.append(" ");
            },
            LatexIr::Text(text) => {
                push_escaped(out, text.as_str());
            },
            LatexIr::Latex(latex) => {
                out.append(latex.as_str());
            },
            LatexIr::Math(math) => {
                out.append(math.as_str());
            },
            LatexIr::InferenceRule { premises, conclusion } => {
                out.append("\\inferrule{");
                render_join_into(premises, " \\\\ ", out);
                out.append("}{");
                conclusion.render_into(out);
                out.append("}");
            },
            LatexIr::RuleGroup(rules) => {
                out.append("\\begin{mathpar}\n");
                render_join_into(rules, "\n\n", out);
                out.append("\n\\end{mathpar}\n");
            },
            LatexIr::Parbreak => {
                out.append("\n\n");
            },
            LatexIr::Block(content) => {
                content.render_into(out);
            },
            LatexIr::Strong(content) => {
                out.append("\\textbf{");
                content.render_into(out);
                out.append("}");
            },
            LatexIr::Emph(content) => {
                out.append("\\emph{");
                content.render_into(out);
                out.append("}");
            },
            LatexIr::Reference(label) => {
                out.append("\\ref{");
                out.append(label.as_str());
                out.append("}");
            },
            LatexIr::Figure { body, caption } => {
                out.append("\\begin{figure}[htbp]\n\\centering\n");
                body.render_into(out);
                out.append("\n");
                match caption {
                    Some(c) => {
                        out.append("\\caption{");
                        c.render_into(out);
                        out.append("}\n");
                    },
                    None => {},
                }
                out.append("\\end{figure}\n");
            },
            LatexIr::Table { cols, rows } => {
                out.append("\\begin{tabular}{");
                let n: u64 = if *cols < 1 {
                    1
                } else {
                    *cols as u64
                };
                push_repeated(out, "l", n);
                out.append("}\n\\hline\n");
                render_rows_into(rows, out);
                out.append("\\hline\n\\end{tabular}\n");
            },
            LatexIr::Unsupported(name) => {
                out.append("\\texttt{[unsupported Typst element: ");
                out.append(name.as_str());
                out.append("]}");
            },
            LatexIr::Footnote(content) => {
                out.append("\\footnote{");
                content.render_into(out);
                out.append("}");
            },
            LatexIr::Cite(keys) => {
                out.append("\\cite{");
                push_joined(out, keys, ",");
                out.append("}");
            },
            LatexIr::TheoremEnv { env, title, body } => {
                out.append("\\begin{");
                out.append(env.as_str());
                out.append("}");
                match title {
                    Some(t) => {
                        out.append("[");
                        t.render_into(out);
                        out.append("]");
                    },
                    None => {},
                }
                out.append("\n");
                body.render_into(out);
                out.append("\n\\end{");
                out.append(env.as_str());
                out.append("}\n");
            },
        }
    }
}

/// Appends the renderings of `items`, separated by `sep`, to `out`.
pub fn render_join_into(items: &Vec<LatexIr>, sep: &str, out: &mut String)
    ensures
        final(out)@ == old(out)@ + rendered_join(trees(items@), sep@),
    decreases items,
{
    let mut i: usize = 0;
    while i < items.len()
        invariant
            i <= items.len(),
            out@ == old(out)@ + rendered_join(trees(items@.take(i as int)), sep@),
        decreases items.len() - i,
    {
        assert(items@.take(i + 1).drop_last() =~= items@.take(i as int));
        assert(trees(items@.take(i + 1)).drop_last() =~= trees(items@.take(i as int)));
        if i > 0 {
            out.append(sep);
        }
        assert(decreases_to!(items => items@[i as int]));
        items[i].render_into(out);
        i = i + 1;
    }
    assert(items@.take(items.len() as int) =~= items@);
}

fn render_rows_into(rows: &Vec<Vec<LatexIr>>, out: &mut String)
    ensures
        final(out)@ == old(out)@ + rendered_rows(tree_rows(rows@)),
    decreases rows,
{
    let mut i: usize = 0;
    while i < rows.len()
        invariant
            i <= rows.len(),
            out@ == old(out)@ + rendered_rows(tree_rows(rows@.take(i as int))),
        decreases rows.len() - i,
    {
        assert(rows@.take(i + 1).drop_last() =~= rows@.take(i as int));
        assert(tree_rows(rows@.take(i + 1)).drop_last() =~= tree_rows(rows@.take(i as int)));
        assert(decreases_to!(rows => rows@[i as int]));
        render_join_into(&rows[i], " & ", out);
        out.append(" \\\\\n");
        i = i + 1;
    }
    assert(rows@.take(rows.len() as int) =~= rows@);
}

} // verus!
