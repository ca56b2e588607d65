//! Lower evaluated Typst content into `LatexIr`.
//!
//! Evaluated content is described by [`Node`]: the element tree that
//! evaluation yields, with every style-dependent property (heading level,
//! block body, raw-block language, smart-quote kind, figure caption, table
//! columns) already resolved against the style chain in force, equation
//! bodies realized as math, and fletcher diagrams read into [`Diagram`]s.
use vstd::prelude::*;

use crate::strings::{
    collapse_ws, contains_str, join, lemma_views_push, lemma_views_take, str_eq, string_of, views,
};
use crate::typst2latex::context::{
    LowerContext, SpanInfo, UnsupportedView, location_of, package_of, unsupported_views,
};
use crate::typst2latex::ir::{
    LatexIr, LatexTree, lemma_trees, lemma_trees_push, lemma_trees_subrange, opt_chars, rendered,
    rendered_join, tree, tree_rows, trees,
};
use crate::typst2latex::lower_fletcher::{Diagram, diagram_latex, diagram_records, lower_diagram};
use crate::typst2latex::lower_math::{
    Equation, equation_latex, lower_equation, parts_align, parts_text,
    parts_unknowns, records_at,
};

verus! {

/// A Typst value, as far as lowering reads it.
pub enum Value {
    Nothing,
    Bool(bool),
    Int(i64),
    Str(String),
    Content(Box<Node>),
    Array(Vec<Value>),
    /// A dictionary: its entries in order, keys distinct.
    Dict(Vec<(String, Value)>),
    /// Any other value (floats, functions, ...).
    Other,
}

/// A child of a `stack`.
pub enum StackChild {
    Block(Node),
    Spacing,
}

/// The body of a footnote.
pub enum FootnoteBody {
    Content(Box<Node>),
    /// A reference to an earlier footnote.
    Reference,
}

/// An item of a table.
pub enum TableItem {
    Cell(Node),
    /// A line or other non-cell item.
    Other,
}

/// A child of a table.
pub enum TableChild {
    Item(TableItem),
    Header(Vec<TableItem>),
    Footer(Vec<TableItem>),
}

/// The page settings a style set assigns, as far as the document preamble
/// reads them.
pub struct PageStyle {
    /// The page numbering, in Typst's own description of it, when the style
    /// set gives one.
    pub numbering: Option<String>,
    /// When the style set gives a custom page margin: the LaTeX length of the
    /// margin if it is one length on all four sides, else none.
    pub margin: Option<Option<String>>,
    /// When the style set assigns the page width: its LaTeX length if it is
    /// a custom length, none if it is `auto`.
    pub width: Option<Option<String>>,
    /// When the style set assigns the page height: its LaTeX length if it is
    /// a custom length, none if it is `auto`.
    pub height: Option<Option<String>>,
}

/// An evaluated Typst element.
pub enum Node {
    /// An element carrying a label (`<key>`).
    Labelled(Box<Node>, String),
    Sequence(Vec<Node>),
    /// An element under additional styles, with the page settings those
    /// styles assign.
    Styled { child: Box<Node>, page: PageStyle },
    Equation(Equation),
    Space,
    Parbreak,
    Text(String),
    /// A heading: its level, whether it is numbered, and its body.
    Heading { level: usize, numbered: bool, body: Box<Node> },
    ListItem(Box<Node>),
    EnumItem(Box<Node>),
    /// A term item, by its description.
    TermItem(Box<Node>),
    /// A block, with its body when that is content.
    Block(Option<Box<Node>>),
    Rect(Option<Box<Node>>),
    Raw { text: String, lang: Option<String> },
    Link(Box<Node>),
    /// A smart quote: double or single.
    SmartQuote(bool),
    /// A box, with its body if it has one.
    Boxed(Option<Box<Node>>),
    /// Horizontal spacing.
    HSpace,
    Align(Box<Node>),
    Stack(Vec<StackChild>),
    Symbol(String),
    /// A state update: no visible output.
    StateUpdate,
    /// An outline: the table of contents.
    Outline,
    Footnote(FootnoteBody),
    Strong(Box<Node>),
    Emph(Box<Node>),
    /// A reference `@key`, by its target.
    Ref(String),
    /// A citation, by its key.
    Cite(String),
    /// A group of citations, by their keys.
    CiteGroup(Vec<String>),
    /// A bibliography, by the paths of its files.
    Bibliography(Vec<String>),
    Figure { body: Box<Node>, caption: Option<Box<Node>> },
    /// A table with its column count and children.
    Table { columns: usize, children: Vec<TableChild> },
    Metadata { value: Value, span: Option<SpanInfo> },
    Diagram(Diagram),
    /// Any other element, by name.
    Other { name: String, span: Option<SpanInfo> },
}

/// What lowering reads from its context.
pub struct Env {
    /// The labels the document defines.
    pub labels: Seq<Seq<char>>,
    /// Lowering happens inside a table cell.
    pub in_cell: bool,
}

/// The outcome of lowering one element: the IR, the records of unsupported
/// constructs it leaves, and the bibliography resources afterwards.
pub struct Lowered {
    pub ir: LatexTree,
    pub unsup: Seq<UnsupportedView>,
    pub bib: Seq<Seq<char>>,
}

/// The outcome of lowering several elements in turn.
pub struct LoweredList {
    pub irs: Seq<LatexTree>,
    pub unsup: Seq<UnsupportedView>,
    pub bib: Seq<Seq<char>>,
}

/// The state of list grouping within a sequence.
pub struct Grouping {
    /// The children emitted so far.
    pub children: Seq<LatexTree>,
    /// The items of the list being gathered.
    pub list: Seq<LatexTree>,
    /// Whether the list being gathered is numbered.
    pub numbered: bool,
    pub unsup: Seq<UnsupportedView>,
    pub bib: Seq<Seq<char>>,
}

/// The record an unsupported construct named `name` leaves at `span`.
pub open spec fn record(name: Seq<char>, span: Option<SpanInfo>) -> UnsupportedView {
    UnsupportedView { name, location: location_of(span), package: package_of(span) }
}

/// An outcome with no records and the bibliography unchanged.
pub open spec fn plain(ir: LatexTree, bib: Seq<Seq<char>>) -> Lowered {
    Lowered { ir, unsup: Seq::empty(), bib }
}

/// The context that lowering reads.
pub open spec fn env_of(ctx: LowerContext) -> Env {
    Env { labels: views(ctx.defined_labels@), in_cell: ctx.in_table_cell }
}

/// `bib` with each of `paths` appended unless already present.
pub open spec fn add_resources(bib: Seq<Seq<char>>, paths: Seq<Seq<char>>) -> Seq<Seq<char>>
    decreases paths.len(),
{
    if paths.len() == 0 {
        bib
    } else {
        let b = add_resources(bib, paths.drop_last());
        if b.contains(paths.last()) {
            b
        } else {
            b.push(paths.last())
        }
    }
}

/// The index of the first entry of a dictionary with key `key`.
pub open spec fn dict_index(entries: Seq<(String, Value)>, key: Seq<char>) -> Option<int>
    decreases entries.len(),
{
    if entries.len() == 0 {
        None
    } else if entries[0].0@ == key {
        Some(0)
    } else {
        match dict_index(entries.drop_first(), key) {
            Some(i) => Some(i + 1),
            None => None,
        }
    }
}

/// A dictionary has an entry with key `key`.
pub open spec fn dict_has(entries: Seq<(String, Value)>, key: Seq<char>) -> bool {
    dict_index(entries, key) is Some
}

/// The value of `key` in a dictionary.
pub open spec fn dict_get(entries: Seq<(String, Value)>, key: Seq<char>) -> Option<Value> {
    match dict_index(entries, key) {
        Some(i) => Some(entries[i].1),
        None => None,
    }
}

/// The entries of the theorion frame metadata inside `n`: a metadata
/// dictionary with `identifier`, `kind` and `body` keys, searched through
/// sequences and styled wrappers only.
pub open spec fn find_frame(n: Node) -> Option<Seq<(String, Value)>>
    decreases n,
{
    match n {
        Node::Metadata { value, .. } => match value {
            Value::Dict(entries) => if dict_has(entries@, "identifier"@) && dict_has(entries@, "kind"@)
                && dict_has(entries@, "body"@) {
                Some(entries@)
            } else {
                None
            },
            _ => None,
        },
        Node::Sequence(children) => find_frame_seq(children@),
        Node::Styled { child, .. } => find_frame(*child),
        Node::Labelled(inner, _) => find_frame(*inner),
        _ => None,
    }
}

/// The first theorion frame metadata among `s`.
pub open spec fn find_frame_seq(s: Seq<Node>) -> Option<Seq<(String, Value)>>
    decreases s,
{
    if s.len() == 0 {
        None
    } else {
        match find_frame(s[0]) {
            Some(d) => Some(d),
            None => find_frame_seq(s.drop_first()),
        }
    }
}

/// A found frame is part of the node it was found in.
pub proof fn lemma_find_frame(n: Node)
    ensures
        find_frame(n) matches Some(e) ==> decreases_to!(n => e),
    decreases n,
{
    match n {
        Node::Sequence(children) => {
            lemma_find_frame_seq(children@);
        },
        Node::Styled { child, .. } => {
            lemma_find_frame(*child);
        },
        Node::Labelled(inner, _) => {
            lemma_find_frame(*inner);
        },
        _ => {},
    }
}

/// A frame found among `s` is part of `s`.
pub proof fn lemma_find_frame_seq(s: Seq<Node>)
    ensures
        find_frame_seq(s) matches Some(e) ==> decreases_to!(s => e),
    decreases s,
{
    if s.len() > 0 {
        lemma_find_frame(s[0]);
        lemma_find_frame_seq(s.drop_first());
    }
}

/// The index found for a key is within the dictionary.
pub proof fn lemma_dict_index(entries: Seq<(String, Value)>, key: Seq<char>)
    ensures
        dict_index(entries, key) matches Some(i) ==> 0 <= i < entries.len() && entries[i].0@ == key,
    decreases entries.len(),
{
    if entries.len() > 0 {
        lemma_dict_index(entries.drop_first(), key);
    }
}

/// The list that a gathered run of items becomes.
pub open spec fn list_of(items: Seq<LatexTree>, numbered: bool) -> LatexTree {
    if numbered {
        LatexTree::NumberedList(items)
    } else {
        LatexTree::List(items)
    }
}

/// `children` with the gathered list (if any) appended.
pub open spec fn flushed(children: Seq<LatexTree>, list: Seq<LatexTree>, numbered: bool) -> Seq<
    LatexTree,
> {
    if list.len() == 0 {
        children
    } else {
        children.push(list_of(list, numbered))
    }
}

/// One step of list grouping: items gather into a list (a change between
/// bullet and numbered items starts a new list), spaces between items are
/// dropped, anything else ends the list and is kept.
pub open spec fn group_step(g: Grouping, ir: LatexTree, is_enum: bool, l: Lowered) -> Grouping {
    let unsup = g.unsup + l.unsup;
    if ir is Item {
        if g.list.len() > 0 && g.numbered != is_enum {
            Grouping {
                children: flushed(g.children, g.list, g.numbered),
                list: seq![ir],
                numbered: is_enum,
                unsup,
                bib: l.bib,
            }
        } else {
            Grouping { children: g.children, list: g.list.push(ir), numbered: is_enum, unsup, bib: l.bib }
        }
    } else if ir is Space && g.list.len() > 0 {
        Grouping { unsup, bib: l.bib, ..g }
    } else {
        Grouping {
            children: flushed(g.children, g.list, g.numbered).push(ir),
            list: Seq::empty(),
            numbered: g.numbered,
            unsup,
            bib: l.bib,
        }
    }
}

/// The grouping state after lowering the children `s` in turn.
pub open spec fn grouping(s: Seq<Node>, env: Env, bib: Seq<Seq<char>>) -> Grouping
    decreases s,
{
    if s.len() == 0 {
        Grouping { children: Seq::empty(), list: Seq::empty(), numbered: false, unsup: Seq::empty(), bib }
    } else {
        let g = grouping(s.drop_last(), env, bib);
        let l = lowering(s.last(), env, g.bib);
        group_step(g, l.ir, s.last() is EnumItem, l)
    }
}

/// `irs` with a ` \\ ` line break between consecutive elements.
pub open spec fn interleaved(irs: Seq<LatexTree>) -> Seq<LatexTree>
    decreases irs.len(),
{
    if irs.len() <= 1 {
        irs
    } else {
        interleaved(irs.drop_last()).push(LatexTree::Latex(" \\\\ "@)).push(irs.last())
    }
}

/// `s` cut into consecutive chunks of `n` elements (the last may be shorter).
pub open spec fn chunks(s: Seq<LatexTree>, n: nat) -> Seq<Seq<LatexTree>>
    recommends
        n > 0,
    decreases s.len(),
{
    if s.len() == 0 || n == 0 {
        Seq::empty()
    } else if s.len() <= n {
        seq![s]
    } else {
        seq![s.take(n as int)] + chunks(s.skip(n as int), n)
    }
}

/// The block children of a stack, lowered in turn.
pub open spec fn stack_lowering(s: Seq<StackChild>, env: Env, bib: Seq<Seq<char>>) -> LoweredList
    decreases s,
{
    if s.len() == 0 {
        LoweredList { irs: Seq::empty(), unsup: Seq::empty(), bib }
    } else {
        let prev = stack_lowering(s.drop_last(), env, bib);
        match s.last() {
            StackChild::Block(c) => {
                let l = lowering(c, env, prev.bib);
                LoweredList { irs: prev.irs.push(l.ir), unsup: prev.unsup + l.unsup, bib: l.bib }
            },
            StackChild::Spacing => prev,
        }
    }
}

/// The content values among `s`, lowered in turn.
pub open spec fn values_lowering(s: Seq<Value>, env: Env, bib: Seq<Seq<char>>) -> LoweredList
    decreases s,
{
    if s.len() == 0 {
        LoweredList { irs: Seq::empty(), unsup: Seq::empty(), bib }
    } else {
        let prev = values_lowering(s.drop_last(), env, bib);
        match s.last() {
            Value::Content(c) => {
                let l = lowering(*c, env, prev.bib);
                LoweredList { irs: prev.irs.push(l.ir), unsup: prev.unsup + l.unsup, bib: l.bib }
            },
            _ => prev,
        }
    }
}

/// A table item lowered after `prev`, if it is a cell.
pub open spec fn item_lowering(item: TableItem, env: Env, prev: LoweredList) -> LoweredList
    decreases item,
{
    match item {
        TableItem::Cell(c) => {
            let l = lowering(c, env, prev.bib);
            LoweredList { irs: prev.irs.push(l.ir), unsup: prev.unsup + l.unsup, bib: l.bib }
        },
        TableItem::Other => prev,
    }
}

/// The cells among table items, lowered in turn after `prev`.
pub open spec fn items_lowering(s: Seq<TableItem>, env: Env, prev: LoweredList) -> LoweredList
    decreases s,
{
    if s.len() == 0 {
        prev
    } else {
        item_lowering(s.last(), env, items_lowering(s.drop_last(), env, prev))
    }
}

/// The cells of a table (its items, header and footer, in order), lowered
/// in turn.
pub open spec fn cells_lowering(s: Seq<TableChild>, env: Env, bib: Seq<Seq<char>>) -> LoweredList
    decreases s,
{
    if s.len() == 0 {
        LoweredList { irs: Seq::empty(), unsup: Seq::empty(), bib }
    } else {
        let prev = cells_lowering(s.drop_last(), env, bib);
        match s.last() {
            TableChild::Item(item) => item_lowering(item, env, prev),
            TableChild::Header(items) => items_lowering(items@, env, prev),
            TableChild::Footer(items) => items_lowering(items@, env, prev),
        }
    }
}

/// The parts of a theorem environment that a theorion frame carries.
pub struct TheoremFrame {
    /// The environment's kind (`theorem`, `lemma`, ...).
    pub kind: Seq<char>,
    /// The frame's `title` entry, if it has one.
    pub title: Option<Value>,
    pub body: Node,
}

/// The theorem environment a figure body holds: found when the theorion
/// frame metadata inside it has a string `kind` and a content `body`.
#[verifier::opaque]
pub open spec fn theorem_frame(body: Node) -> Option<TheoremFrame> {
    match find_frame(body) {
        Some(entries) => match (dict_get(entries, "kind"@), dict_get(entries, "body"@)) {
            (Some(Value::Str(kind)), Some(Value::Content(b))) => Some(
                TheoremFrame { kind: kind@, title: dict_get(entries, "title"@), body: *b },
            ),
            _ => None,
        },
        None => None,
    }
}

/// The parts of a theorem frame are part of the figure body.
pub proof fn lemma_theorem_frame(body: Node)
    ensures
        theorem_frame(body) matches Some(f) ==> {
            &&& decreases_to!(body => f.body)
            &&& f.title matches Some(Value::Content(c)) ==> decreases_to!(body => *c)
        },
{
    reveal(theorem_frame);
    lemma_find_frame(body);
    if let Some(entries) = find_frame(body) {
        lemma_dict_index(entries, "body"@);
        lemma_dict_index(entries, "title"@);
    }
}

/// What a curryst marker dictionary describes.
pub enum CurrystMarker {
    /// An inference rule: its premises (content values among them) and its
    /// conclusion.
    Rule { premises: Vec<Value>, conclusion: Node },
    /// A group of rules side by side.
    RuleSet(Vec<Value>),
    /// A proof tree, by its root rule.
    ProofTree(Node),
}

/// The curryst marker a metadata value is, if it has one of the expected
/// shapes.
#[verifier::opaque]
pub open spec fn curryst_marker(value: Value) -> Option<CurrystMarker> {
    match value {
        Value::Dict(entries) => match dict_get(entries@, "type"@) {
            Some(Value::Str(kind)) => if kind@ == "curryst-rule"@ {
                match (dict_get(entries@, "premises"@), dict_get(entries@, "conclusion"@)) {
                    (Some(Value::Array(p)), Some(Value::Content(c))) => Some(
                        CurrystMarker::Rule { premises: p, conclusion: *c },
                    ),
                    _ => None,
                }
            } else if kind@ == "curryst-rule-set"@ {
                match dict_get(entries@, "trees"@) {
                    Some(Value::Array(t)) => Some(CurrystMarker::RuleSet(t)),
                    _ => None,
                }
            } else if kind@ == "curryst-prooftree"@ {
                match dict_get(entries@, "rule"@) {
                    Some(Value::Content(r)) => Some(CurrystMarker::ProofTree(*r)),
                    _ => None,
                }
            } else {
                None
            },
            _ => None,
        },
        _ => None,
    }
}

/// The parts of a curryst marker are part of the value.
pub proof fn lemma_curryst_marker(value: Value)
    ensures
        match curryst_marker(value) {
            Some(CurrystMarker::Rule { premises, conclusion }) => decreases_to!(value => premises)
                && decreases_to!(value => conclusion),
            Some(CurrystMarker::RuleSet(trees)) => decreases_to!(value => trees),
            Some(CurrystMarker::ProofTree(rule)) => decreases_to!(value => rule),
            None => true,
        },
{
    reveal(curryst_marker);
    if let Value::Dict(entries) = value {
        lemma_dict_index(entries@, "type"@);
        lemma_dict_index(entries@, "premises"@);
        lemma_dict_index(entries@, "conclusion"@);
        lemma_dict_index(entries@, "trees"@);
        lemma_dict_index(entries@, "rule"@);
    }
}

/// The lowering of an element: its IR, the records of unsupported
/// constructs it leaves, and the bibliography resources afterwards.
#[verifier::opaque]
pub open spec fn lowering(n: Node, env: Env, bib: Seq<Seq<char>>) -> Lowered
    decreases n,
{
    match n {
        Node::Labelled(inner, key) => {
            let l = lowering(*inner, env, bib);
            Lowered {
                ir: LatexTree::Sequence(seq![l.ir, LatexTree::Latex("\\label{"@ + key@ + "}"@)]),
                ..l
            }
        },
        Node::Sequence(children) => {
            let g = grouping(children@, env, bib);
            Lowered {
                ir: LatexTree::Sequence(flushed(g.children, g.list, g.numbered)),
                unsup: g.unsup,
                bib: g.bib,
            }
        },
        Node::Styled { child, .. } => lowering(*child, env, bib),
        Node::Equation(eq) => Lowered {
            ir: LatexTree::Math(
                equation_latex(eq.block, collapse_ws(parts_text(eq.body.parts@)), parts_align(eq.body.parts@)),
            ),
            unsup: records_at(parts_unknowns(eq.body.parts@), eq.span),
            bib,
        },
        Node::Space => plain(LatexTree::Space, bib),
        Node::Parbreak => plain(LatexTree::Parbreak, bib),
        Node::Text(t) => plain(LatexTree::Text(t@), bib),
        Node::Heading { level, numbered, body } => {
            let l = lowering(*body, env, bib);
            Lowered { ir: LatexTree::Heading { level, numbered, content: Box::new(l.ir) }, ..l }
        },
        Node::ListItem(body) => {
            let l = lowering(*body, env, bib);
            Lowered { ir: LatexTree::Item(Box::new(l.ir)), ..l }
        },
        Node::EnumItem(body) => {
            let l = lowering(*body, env, bib);
            Lowered { ir: LatexTree::Item(Box::new(l.ir)), ..l }
        },
        Node::TermItem(body) => {
            let l = lowering(*body, env, bib);
            Lowered { ir: LatexTree::Item(Box::new(l.ir)), ..l }
        },
        Node::Block(body) => match body {
            Some(b) => {
                let l = lowering(*b, env, bib);
                Lowered { ir: LatexTree::Block(Box::new(l.ir)), ..l }
            },
            None => plain(LatexTree::Sequence(Seq::empty()), bib),
        },
        Node::Rect(body) => match body {
            Some(b) => {
                let l = lowering(*b, env, bib);
                Lowered { ir: LatexTree::Block(Box::new(l.ir)), ..l }
            },
            None => plain(LatexTree::Sequence(Seq::empty()), bib),
        },
        Node::Raw { text, lang } => plain(LatexTree::Raw(text@, opt_chars(lang)), bib),
        Node::Link(body) => {
            let l = lowering(*body, env, bib);
            Lowered { ir: LatexTree::Link(Seq::empty(), Some(Box::new(l.ir))), ..l }
        },
        Node::SmartQuote(double) => plain(LatexTree::SmartQuote(double), bib),
        Node::Boxed(body) => match body {
            Some(b) => lowering(*b, env, bib),
            None => plain(LatexTree::Text(Seq::empty()), bib),
        },
        Node::HSpace => plain(LatexTree::Space, bib),
        Node::Align(body) => lowering(*body, env, bib),
        Node::Stack(children) => {
            let s = stack_lowering(children@, env, bib);
            Lowered { ir: LatexTree::Sequence(interleaved(s.irs)), unsup: s.unsup, bib: s.bib }
        },
        Node::Symbol(t) => plain(LatexTree::Text(t@), bib),
        Node::StateUpdate => plain(LatexTree::Sequence(Seq::empty()), bib),
        Node::Outline => plain(LatexTree::Latex("\\tableofcontents\n"@), bib),
        Node::Footnote(body) => match body {
            FootnoteBody::Content(c) => {
                let l = lowering(*c, env, bib);
                Lowered { ir: LatexTree::Footnote(Box::new(l.ir)), ..l }
            },
            FootnoteBody::Reference => plain(LatexTree::Latex("\\footnotemark"@), bib),
        },
        Node::Strong(body) => {
            let l = lowering(*body, env, bib);
            Lowered { ir: LatexTree::Strong(Box::new(l.ir)), ..l }
        },
        Node::Emph(body) => {
            let l = lowering(*body, env, bib);
            Lowered { ir: LatexTree::Emph(Box::new(l.ir)), ..l }
        },
        Node::Ref(key) => plain(
            if env.labels.contains(key@) {
                LatexTree::Reference(key@)
            } else {
                LatexTree::Cite(seq![key@])
            },
            bib,
        ),
        Node::Cite(key) => plain(LatexTree::Cite(seq![key@]), bib),
        Node::CiteGroup(keys) => plain(LatexTree::Cite(views(keys@)), bib),
        Node::Bibliography(paths) => plain(
            LatexTree::Latex("\\printbibliography\n"@),
            add_resources(bib, views(paths@)),
        ),
        Node::Figure { body, caption } => match theorem_frame(*body) {
            Some(f) => {
                proof {
                    lemma_theorem_frame(*body);
                }
                let (title, tl) = match f.title {
                    Some(Value::Content(c)) => {
                        let l = lowering(*c, env, bib);
                        (Some(Box::new(l.ir)), l)
                    },
                    Some(Value::Str(t)) => if t@.len() > 0 {
                        (Some(Box::new(LatexTree::Text(t@))), plain(LatexTree::Space, bib))
                    } else {
                        (None, plain(LatexTree::Space, bib))
                    },
                    _ => (None, plain(LatexTree::Space, bib)),
                };
                let bl = lowering(f.body, env, tl.bib);
                Lowered {
                    ir: LatexTree::TheoremEnv { env: f.kind, title, body: Box::new(bl.ir) },
                    unsup: tl.unsup + bl.unsup,
                    bib: bl.bib,
                }
            },
            None => {
                let b = lowering(*body, env, bib);
                match caption {
                    Some(c) => {
                        let cl = lowering(*c, env, b.bib);
                        Lowered {
                            ir: LatexTree::Figure { body: Box::new(b.ir), caption: Some(Box::new(cl.ir)) },
                            unsup: b.unsup + cl.unsup,
                            bib: cl.bib,
                        }
                    },
                    None => Lowered { ir: LatexTree::Figure { body: Box::new(b.ir), caption: None }, ..b },
                }
            },
        },
        Node::Table { columns, children } => {
            let cols: usize = if columns < 1 {
                1
            } else {
                columns
            };
            let cells = cells_lowering(children@, Env { in_cell: true, ..env }, bib);
            Lowered {
                ir: LatexTree::Table { cols, rows: chunks(cells.irs, cols as nat) },
                unsup: cells.unsup,
                bib: cells.bib,
            }
        },
        Node::Metadata { value, span } => {
            proof {
                lemma_curryst_marker(value);
            }
            match curryst_marker(value) {
                Some(CurrystMarker::Rule { premises, conclusion }) => {
                    let ps = values_lowering(premises@, env, bib);
                    let c = lowering(conclusion, env, ps.bib);
                    Lowered {
                        ir: LatexTree::InferenceRule { premises: ps.irs, conclusion: Box::new(c.ir) },
                        unsup: ps.unsup + c.unsup,
                        bib: c.bib,
                    }
                },
                Some(CurrystMarker::RuleSet(trees)) => {
                    let ts = values_lowering(trees@, env, bib);
                    Lowered { ir: LatexTree::RuleGroup(ts.irs), unsup: ts.unsup, bib: ts.bib }
                },
                Some(CurrystMarker::ProofTree(rule)) => lowering(rule, env, bib),
                None => Lowered {
                    ir: LatexTree::Unsupported("metadata"@),
                    unsup: seq![record("metadata"@, span)],
                    bib,
                },
            }
        },
        Node::Diagram(d) => Lowered {
            ir: LatexTree::Latex(diagram_latex(d, !env.in_cell)),
            unsup: diagram_records(d),
            bib,
        },
        Node::Other { name, span } => Lowered {
            ir: LatexTree::Unsupported(name@),
            unsup: seq![record(name@, span)],
            bib,
        },
    }
}

/// One step of `lowering` on an element that wraps one child.
pub proof fn lemma_lowering_wrapped(n: Node, env: Env, bib: Seq<Seq<char>>)
    ensures
        n matches Node::Labelled(inner, key) ==> lowering(n, env, bib) == (Lowered {
            ir: LatexTree::Sequence(
                seq![lowering(*inner, env, bib).ir, LatexTree::Latex("\\label{"@ + key@ + "}"@)],
            ),
            ..lowering(*inner, env, bib)
        }),
        n matches Node::Styled { child, .. } ==> lowering(n, env, bib) == lowering(*child, env, bib),
        n matches Node::Heading { level, numbered, body } ==> lowering(n, env, bib) == (Lowered {
            ir: LatexTree::Heading { level, numbered, content: Box::new(lowering(*body, env, bib).ir) },
            ..lowering(*body, env, bib)
        }),
        n matches Node::ListItem(b) ==> lowering(n, env, bib) == (Lowered {
            ir: LatexTree::Item(Box::new(lowering(*b, env, bib).ir)),
            ..lowering(*b, env, bib)
        }),
        n matches Node::EnumItem(b) ==> lowering(n, env, bib) == (Lowered {
            ir: LatexTree::Item(Box::new(lowering(*b, env, bib).ir)),
            ..lowering(*b, env, bib)
        }),
        n matches Node::TermItem(b) ==> lowering(n, env, bib) == (Lowered {
            ir: LatexTree::Item(Box::new(lowering(*b, env, bib).ir)),
            ..lowering(*b, env, bib)
        }),
        n matches Node::Link(b) ==> lowering(n, env, bib) == (Lowered {
            ir: LatexTree::Link(Seq::empty(), Some(Box::new(lowering(*b, env, bib).ir))),
            ..lowering(*b, env, bib)
        }),
        n matches Node::Align(b) ==> lowering(n, env, bib) == lowering(*b, env, bib),
        n matches Node::Strong(b) ==> lowering(n, env, bib) == (Lowered {
            ir: LatexTree::Strong(Box::new(lowering(*b, env, bib).ir)),
            ..lowering(*b, env, bib)
        }),
        n matches Node::Emph(b) ==> lowering(n, env, bib) == (Lowered {
            ir: LatexTree::Emph(Box::new(lowering(*b, env, bib).ir)),
            ..lowering(*b, env, bib)
        }),
{
    reveal(lowering);
}

/// `lowering` on an element that has no children to lower.
pub proof fn lemma_lowering_leaf(n: Node, env: Env, bib: Seq<Seq<char>>)
    ensures
        n is Space ==> lowering(n, env, bib) == plain(LatexTree::Space, bib),
        n is Parbreak ==> lowering(n, env, bib) == plain(LatexTree::Parbreak, bib),
        n matches Node::Text(t) ==> lowering(n, env, bib) == plain(LatexTree::Text(t@), bib),
        n matches Node::Raw { text, lang } ==> lowering(n, env, bib) == plain(
            LatexTree::Raw(text@, opt_chars(lang)),
            bib,
        ),
        n matches Node::SmartQuote(double) ==> lowering(n, env, bib) == plain(LatexTree::SmartQuote(double), bib),
        n is HSpace ==> lowering(n, env, bib) == plain(LatexTree::Space, bib),
        n matches Node::Symbol(t) ==> lowering(n, env, bib) == plain(LatexTree::Text(t@), bib),
        n is StateUpdate ==> lowering(n, env, bib) == plain(LatexTree::Sequence(Seq::empty()), bib),
        n is Outline ==> lowering(n, env, bib) == plain(LatexTree::Latex("\\tableofcontents\n"@), bib),
        n matches Node::Ref(key) ==> lowering(n, env, bib) == plain(
            if env.labels.contains(key@) {
                LatexTree::Reference(key@)
            } else {
                LatexTree::Cite(seq![key@])
            },
            bib,
        ),
        n matches Node::Cite(key) ==> lowering(n, env, bib) == plain(LatexTree::Cite(seq![key@]), bib),
        n matches Node::CiteGroup(keys) ==> lowering(n, env, bib) == plain(LatexTree::Cite(views(keys@)), bib),
        n matches Node::Bibliography(paths) ==> lowering(n, env, bib) == plain(
            LatexTree::Latex("\\printbibliography\n"@),
            add_resources(bib, views(paths@)),
        ),
{
    reveal(lowering);
}

/// One step of `lowering` on an element whose child may be absent.
pub proof fn lemma_lowering_optional(n: Node, env: Env, bib: Seq<Seq<char>>)
    ensures
        n matches Node::Block(Some(b)) ==> lowering(n, env, bib) == (Lowered {
            ir: LatexTree::Block(Box::new(lowering(*b, env, bib).ir)),
            ..lowering(*b, env, bib)
        }),
        n matches Node::Rect(Some(b)) ==> lowering(n, env, bib) == (Lowered {
            ir: LatexTree::Block(Box::new(lowering(*b, env, bib).ir)),
            ..lowering(*b, env, bib)
        }),
        n matches Node::Boxed(Some(b)) ==> lowering(n, env, bib) == lowering(*b, env, bib),
        n matches Node::Footnote(FootnoteBody::Content(b)) ==> lowering(n, env, bib) == (Lowered {
            ir: LatexTree::Footnote(Box::new(lowering(*b, env, bib).ir)),
            ..lowering(*b, env, bib)
        }),
        n matches Node::Block(None) ==> lowering(n, env, bib) == plain(LatexTree::Sequence(Seq::empty()), bib),
        n matches Node::Rect(None) ==> lowering(n, env, bib) == plain(LatexTree::Sequence(Seq::empty()), bib),
        n matches Node::Boxed(None) ==> lowering(n, env, bib) == plain(LatexTree::Text(Seq::empty()), bib),
        n matches Node::Footnote(FootnoteBody::Reference) ==> lowering(n, env, bib) == plain(
            LatexTree::Latex("\\footnotemark"@),
            bib,
        ),
{
    reveal(lowering);
}

/// One step of `lowering` on a figure.
pub proof fn lemma_lowering_figure(n: Node, env: Env, bib: Seq<Seq<char>>)
    requires
        n is Figure,
    ensures
        ({
            let body = *n->Figure_body;
            match theorem_frame(body) {
                Some(f) => {
                    let tl = match f.title {
                        Some(Value::Content(c)) => lowering(*c, env, bib),
                        _ => plain(LatexTree::Space, bib),
                    };
                    let title = match f.title {
                        Some(Value::Content(c)) => Some(Box::new(tl.ir)),
                        Some(Value::Str(t)) => if t@.len() > 0 {
                            Some(Box::new(LatexTree::Text(t@)))
                        } else {
                            None
                        },
                        _ => None,
                    };
                    let bl = lowering(f.body, env, tl.bib);
                    lowering(n, env, bib) == (Lowered {
                        ir: LatexTree::TheoremEnv { env: f.kind, title, body: Box::new(bl.ir) },
                        unsup: tl.unsup + bl.unsup,
                        bib: bl.bib,
                    })
                },
                None => {
                    let b = lowering(body, env, bib);
                    match n->Figure_caption {
                        Some(c) => {
                            let cl = lowering(*c, env, b.bib);
                            lowering(n, env, bib) == (Lowered {
                                ir: LatexTree::Figure { body: Box::new(b.ir), caption: Some(Box::new(cl.ir)) },
                                unsup: b.unsup + cl.unsup,
                                bib: cl.bib,
                            })
                        },
                        None => lowering(n, env, bib) == (Lowered {
                            ir: LatexTree::Figure { body: Box::new(b.ir), caption: None },
                            ..b
                        }),
                    }
                },
            }
        }),
{
    reveal(lowering);
}

/// One step of `lowering` on the remaining elements: sequences, stacks,
/// tables, metadata, equations, diagrams and unsupported elements.
pub proof fn lemma_lowering_compound(n: Node, env: Env, bib: Seq<Seq<char>>)
    ensures
        n matches Node::Sequence(children) ==> lowering(n, env, bib) == ({
            let g = grouping(children@, env, bib);
            Lowered { ir: LatexTree::Sequence(flushed(g.children, g.list, g.numbered)), unsup: g.unsup, bib: g.bib }
        }),
        n matches Node::Stack(children) ==> lowering(n, env, bib) == ({
            let st = stack_lowering(children@, env, bib);
            Lowered { ir: LatexTree::Sequence(interleaved(st.irs)), unsup: st.unsup, bib: st.bib }
        }),
        n matches Node::Table { columns, children } ==> lowering(n, env, bib) == ({
            let cols: usize = if columns < 1 {
                1
            } else {
                columns
            };
            let cells = cells_lowering(children@, Env { in_cell: true, ..env }, bib);
            Lowered {
                ir: LatexTree::Table { cols, rows: chunks(cells.irs, cols as nat) },
                unsup: cells.unsup,
                bib: cells.bib,
            }
        }),
        n matches Node::Metadata { value, span } ==> lowering(n, env, bib) == match curryst_marker(value) {
            Some(CurrystMarker::Rule { premises, conclusion }) => {
                let ps = values_lowering(premises@, env, bib);
                let c = lowering(conclusion, env, ps.bib);
                Lowered {
                    ir: LatexTree::InferenceRule { premises: ps.irs, conclusion: Box::new(c.ir) },
                    unsup: ps.unsup + c.unsup,
                    bib: c.bib,
                }
            },
            Some(CurrystMarker::RuleSet(trees)) => {
                let ts = values_lowering(trees@, env, bib);
                Lowered { ir: LatexTree::RuleGroup(ts.irs), unsup: ts.unsup, bib: ts.bib }
            },
            Some(CurrystMarker::ProofTree(rule)) => lowering(rule, env, bib),
            None => Lowered {
                ir: LatexTree::Unsupported("metadata"@),
                unsup: seq![record("metadata"@, span)],
                bib,
            },
        },
        n matches Node::Equation(eq) ==> lowering(n, env, bib) == (Lowered {
            ir: LatexTree::Math(
                equation_latex(eq.block, collapse_ws(parts_text(eq.body.parts@)), parts_align(eq.body.parts@)),
            ),
            unsup: records_at(parts_unknowns(eq.body.parts@), eq.span),
            bib,
        }),
        n matches Node::Diagram(d) ==> lowering(n, env, bib) == (Lowered {
            ir: LatexTree::Latex(diagram_latex(d, !env.in_cell)),
            unsup: diagram_records(d),
            bib,
        }),
        n matches Node::Other { name, span } ==> lowering(n, env, bib) == (Lowered {
            ir: LatexTree::Unsupported(name@),
            unsup: seq![record(name@, span)],
            bib,
        }),
{
    reveal(lowering);
}

/// One step of list grouping.
pub proof fn lemma_grouping_step(s: Seq<Node>, env: Env, bib: Seq<Seq<char>>)
    requires
        s.len() > 0,
    ensures
        ({
            let g = grouping(s.drop_last(), env, bib);
            let l = lowering(s.last(), env, g.bib);
            grouping(s, env, bib) == group_step(g, l.ir, s.last() is EnumItem, l)
        }),
{
    reveal(lowering);
}

/// One step of lowering the children of a stack.
pub proof fn lemma_stack_step(s: Seq<StackChild>, env: Env, bib: Seq<Seq<char>>)
    requires
        s.len() > 0,
    ensures
        ({
            let prev = stack_lowering(s.drop_last(), env, bib);
            stack_lowering(s, env, bib) == match s.last() {
                StackChild::Block(c) => {
                    let l = lowering(c, env, prev.bib);
                    LoweredList { irs: prev.irs.push(l.ir), unsup: prev.unsup + l.unsup, bib: l.bib }
                },
                StackChild::Spacing => prev,
            }
        }),
{
    reveal(lowering);
}

/// One step of lowering content values.
pub proof fn lemma_values_step(s: Seq<Value>, env: Env, bib: Seq<Seq<char>>)
    requires
        s.len() > 0,
    ensures
        ({
            let prev = values_lowering(s.drop_last(), env, bib);
            values_lowering(s, env, bib) == match s.last() {
                Value::Content(c) => {
                    let l = lowering(*c, env, prev.bib);
                    LoweredList { irs: prev.irs.push(l.ir), unsup: prev.unsup + l.unsup, bib: l.bib }
                },
                _ => prev,
            }
        }),
{
    reveal(lowering);
}

/// One step of lowering a table item.
pub proof fn lemma_item_step(item: TableItem, env: Env, prev: LoweredList)
    ensures
        item_lowering(item, env, prev) == match item {
            TableItem::Cell(c) => {
                let l = lowering(c, env, prev.bib);
                LoweredList { irs: prev.irs.push(l.ir), unsup: prev.unsup + l.unsup, bib: l.bib }
            },
            TableItem::Other => prev,
        },
{
    reveal(lowering);
}

/// The lowering of `n` in the context `ctx`.
pub open spec fn lowered_in(ctx: LowerContext, n: Node) -> Lowered {
    lowering(n, env_of(ctx), views(ctx.bib_resources@))
}

/// `after` is `before` with the records `unsup` added and the bibliography
/// resources `bib`; the labels and the table-cell flag are unchanged.
pub open spec fn advanced(
    before: LowerContext,
    after: LowerContext,
    unsup: Seq<UnsupportedView>,
    bib: Seq<Seq<char>>,
) -> bool {
    &&& unsupported_views(after.unsupported@) =~= unsupported_views(before.unsupported@) + unsup
    &&& views(after.bib_resources@) =~= bib
    &&& after.defined_labels@ == before.defined_labels@
    &&& after.in_table_cell == before.in_table_cell
}

/// Lower an already-evaluated piece of Typst content into `LatexIr`.
///
/// A `\label{…}` is emitted after any element that carries a Typst label,
/// so cross-references resolve; elements that cannot be lowered are
/// recorded in the context and become visible markers.
pub fn lower_content(n: &Node, ctx: &mut LowerContext) -> (res: LatexIr)
    ensures
        res@ == lowered_in(*old(ctx), *n).ir,
        advanced(*old(ctx), *final(ctx), lowered_in(*old(ctx), *n).unsup, lowered_in(*old(ctx), *n).bib),
    decreases n, 2int,
{
    match n {
        Node::Labelled(..) => lower_wrapped(n, ctx),
        Node::Styled { .. } => lower_wrapped(n, ctx),
        Node::Heading { .. } => lower_wrapped(n, ctx),
        Node::ListItem(_) => lower_wrapped(n, ctx),
        Node::EnumItem(_) => lower_wrapped(n, ctx),
        Node::TermItem(_) => lower_wrapped(n, ctx),
        Node::Link(_) => lower_wrapped(n, ctx),
        Node::Align(_) => lower_wrapped(n, ctx),
        Node::Strong(_) => lower_wrapped(n, ctx),
        Node::Emph(_) => lower_wrapped(n, ctx),
        Node::Block(_) => lower_optional(n, ctx),
        Node::Rect(_) => lower_optional(n, ctx),
        Node::Boxed(_) => lower_optional(n, ctx),
        Node::Footnote(_) => lower_optional(n, ctx),
        Node::Sequence(_) => lower_compound(n, ctx),
        Node::Stack(_) => lower_compound(n, ctx),
        Node::Equation(_) => lower_marked(n, ctx),
        Node::Diagram(_) => lower_marked(n, ctx),
        Node::Other { .. } => lower_marked(n, ctx),
        Node::Metadata { .. } => lower_metadata(n, ctx),
        Node::Figure { .. } => lower_figure(n, ctx),
        Node::Table { .. } => lower_table(n, ctx),
        _ => lower_leaf(n, ctx),
    }
}

/// Lower an element that wraps one child.
#[verifier::spinoff_prover]
fn lower_wrapped(n: &Node, ctx: &mut LowerContext) -> (res: LatexIr)
    requires
        n is Labelled || n is Styled || n is Heading || n is ListItem || n is EnumItem
            || n is TermItem || n is Link || n is Align || n is Strong || n is Emph,
    ensures
        res@ == lowered_in(*old(ctx), *n).ir,
        advanced(*old(ctx), *final(ctx), lowered_in(*old(ctx), *n).unsup, lowered_in(*old(ctx), *n).bib),
    decreases n, 1int,
{
    proof {
        lemma_lowering_wrapped(*n, env_of(*ctx), views(ctx.bib_resources@));
    }
    match n {
        Node::Labelled(inner, key) => {
            let ir = lower_content(inner, ctx);
            let mut label = String::new();
            label.append("\\label{");
            label.append(key.as_str());
            label.append("}");
            let mut v: Vec<LatexIr> = Vec::new();
            v.push(ir);
            v.push(LatexIr::Latex(label));
            proof {
                lemma_trees(v@);
                assert(trees(v@) =~= seq![v@[0]@, v@[1]@]);
            }
            LatexIr::Sequence(v)
        },
        Node::Styled { child, .. } => lower_content(child, ctx),
        Node::Heading { level, numbered, body } => {
            let c = lower_content(body, ctx);
            LatexIr::Heading { level: *level, numbered: *numbered, content: Box::new(c) }
        },
        Node::ListItem(body) => LatexIr::Item(Box::new(lower_content(body, ctx))),
        Node::EnumItem(body) => LatexIr::Item(Box::new(lower_content(body, ctx))),
        Node::TermItem(body) => LatexIr::Item(Box::new(lower_content(body, ctx))),
        Node::Link(body) => {
            let b = lower_content(body, ctx);
            LatexIr::Link(String::new(), Some(Box::new(b)))
        },
        Node::Align(body) => lower_content(body, ctx),
        Node::Strong(body) => LatexIr::Strong(Box::new(lower_content(body, ctx))),
        Node::Emph(body) => LatexIr::Emph(Box::new(lower_content(body, ctx))),
        _ => LatexIr::Space,
    }
}

/// Lower an element whose child may be absent.
#[verifier::spinoff_prover]
fn lower_optional(n: &Node, ctx: &mut LowerContext) -> (res: LatexIr)
    requires
        n is Block || n is Rect || n is Boxed || n is Footnote,
    ensures
        res@ == lowered_in(*old(ctx), *n).ir,
        advanced(*old(ctx), *final(ctx), lowered_in(*old(ctx), *n).unsup, lowered_in(*old(ctx), *n).bib),
    decreases n, 1int,
{
    proof {
        lemma_lowering_optional(*n, env_of(*ctx), views(ctx.bib_resources@));
    }
    match n {
        Node::Block(body) => match body {
            Some(b) => LatexIr::Block(Box::new(lower_content(b, ctx))),
            None => empty_sequence(),
        },
        Node::Rect(body) => match body {
            Some(b) => LatexIr::Block(Box::new(lower_content(b, ctx))),
            None => empty_sequence(),
        },
        Node::Boxed(body) => match body {
            Some(b) => lower_content(b, ctx),
            None => LatexIr::Text(String::new()),
        },
        Node::Footnote(body) => match body {
            FootnoteBody::Content(c) => LatexIr::Footnote(Box::new(lower_content(c, ctx))),
            FootnoteBody::Reference => LatexIr::Latex(string_of("\\footnotemark")),
        },
        _ => LatexIr::Space,
    }
}

/// Lower a sequence or a stack.
#[verifier::spinoff_prover]
fn lower_compound(n: &Node, ctx: &mut LowerContext) -> (res: LatexIr)
    requires
        n is Sequence || n is Stack,
    ensures
        res@ == lowered_in(*old(ctx), *n).ir,
        advanced(*old(ctx), *final(ctx), lowered_in(*old(ctx), *n).unsup, lowered_in(*old(ctx), *n).bib),
    decreases n, 1int,
{
    proof {
        reveal(lowering);
    }
    match n {
        Node::Sequence(children) => lower_sequence(children, ctx),
        Node::Stack(children) => {
            let v = lower_stack(children, ctx);
            LatexIr::Sequence(v)
        },
        _ => LatexIr::Space,
    }
}

/// Lower an equation, a diagram or an element that cannot be lowered.
fn lower_marked(n: &Node, ctx: &mut LowerContext) -> (res: LatexIr)
    requires
        n is Equation || n is Diagram || n is Other,
    ensures
        res@ == lowered_in(*old(ctx), *n).ir,
        advanced(*old(ctx), *final(ctx), lowered_in(*old(ctx), *n).unsup, lowered_in(*old(ctx), *n).bib),
{
    proof {
        reveal(lowering);
    }
    match n {
        Node::Equation(eq) => lower_equation(eq, ctx),
        Node::Diagram(d) => lower_diagram(d, ctx),
        Node::Other { name, span } => ctx.record_unsupported(name.as_str(), span),
        _ => LatexIr::Space,
    }
}

/// Lower metadata: the rule, rule group or proof tree of a curryst marker,
/// else an unsupported construct.
#[verifier::spinoff_prover]
fn lower_metadata(n: &Node, ctx: &mut LowerContext) -> (res: LatexIr)
    requires
        n is Metadata,
    ensures
        res@ == lowered_in(*old(ctx), *n).ir,
        advanced(*old(ctx), *final(ctx), lowered_in(*old(ctx), *n).unsup, lowered_in(*old(ctx), *n).bib),
    decreases n, 1int,
{
    proof {
        reveal(lowering);
    }
    match n {
        Node::Metadata { value, span } => {
            proof {
                lemma_curryst_marker(*value);
            }
            match curryst_parts_of(value) {
                Some(MarkerParts::Rule(premises, conclusion)) => {
                    let ps = lower_values(premises, ctx);
                    let c = lower_content(conclusion, ctx);
                    LatexIr::InferenceRule { premises: ps, conclusion: Box::new(c) }
                },
                Some(MarkerParts::RuleSet(trees)) => LatexIr::RuleGroup(lower_values(trees, ctx)),
                Some(MarkerParts::ProofTree(rule)) => lower_content(rule, ctx),
                None => ctx.record_unsupported("metadata", span),
            }
        },
        _ => LatexIr::Space,
    }
}

fn empty_sequence() -> (res: LatexIr)
    ensures
        res@ == LatexTree::Sequence(Seq::empty()),
{
    let v: Vec<LatexIr> = Vec::new();
    proof {
        lemma_trees(v@);
    }
    LatexIr::Sequence(v)
}

/// Lower an element that has no children to lower.
#[verifier::spinoff_prover]
fn lower_leaf(n: &Node, ctx: &mut LowerContext) -> (res: LatexIr)
    requires
        n is Space || n is Parbreak || n is Text || n is Raw || n is SmartQuote || n is HSpace
            || n is Symbol || n is StateUpdate || n is Outline || n is Ref || n is Cite || n is CiteGroup
            || n is Bibliography,
    ensures
        res@ == lowered_in(*old(ctx), *n).ir,
        advanced(*old(ctx), *final(ctx), lowered_in(*old(ctx), *n).unsup, lowered_in(*old(ctx), *n).bib),
{
    proof {
        lemma_lowering_leaf(*n, env_of(*ctx), views(ctx.bib_resources@));
    }
    match n {
        Node::Space => LatexIr::Space,
        Node::Parbreak => LatexIr::Parbreak,
        Node::Text(t) => LatexIr::Text(string_of(t.as_str())),
        Node::Raw { text, lang } => {
            let l = match lang {
                Some(l) => Some(string_of(l.as_str())),
                None => None,
            };
            LatexIr::Raw(string_of(text.as_str()), l)
        },
        Node::SmartQuote(double) => LatexIr::SmartQuote(*double),
        Node::HSpace => LatexIr::Space,
        Node::Symbol(t) => LatexIr::Text(string_of(t.as_str())),
        Node::StateUpdate => empty_sequence(),
        Node::Outline => LatexIr::Latex(string_of("\\tableofcontents\n")),
        Node::Ref(key) => {
            if contains_str(&ctx.defined_labels, key.as_str()) {
                LatexIr::Reference(string_of(key.as_str()))
            } else {
                let mut keys: Vec<String> = Vec::new();
                keys.push(string_of(key.as_str()));
                assert(views(keys@) =~= seq![key@]);
                LatexIr::Cite(keys)
            }
        },
        Node::Cite(key) => {
            let mut keys: Vec<String> = Vec::new();
            keys.push(string_of(key.as_str()));
            assert(views(keys@) =~= seq![key@]);
            LatexIr::Cite(keys)
        },
        Node::CiteGroup(keys) => LatexIr::Cite(copy_strings(keys)),
        Node::Bibliography(paths) => {
            add_bib_resources(ctx, paths);
            LatexIr::Latex(string_of("\\printbibliography\n"))
        },
        _ => LatexIr::Space,
    }
}

/// Copies of a list of strings.
fn copy_strings(v: &Vec<String>) -> (res: Vec<String>)
    ensures
        views(res@) == views(v@),
{
    let mut res: Vec<String> = Vec::new();
    let mut i: usize = 0;
    while i < v.len()
        invariant
            i <= v@.len(),
            views(res@) == views(v@.take(i as int)),
        decreases v@.len() - i,
    {
        let ghost before = res@;
        let c = string_of(v[i].as_str());
        res.push(c);
        proof {
            lemma_views_push(before, c);
            lemma_views_take(v@, i as int);
        }
        i = i + 1;
    }
    assert(v@.take(v@.len() as int) =~= v@);
    res
}

/// Add the bibliography resources `paths` that are not yet known.
fn add_bib_resources(ctx: &mut LowerContext, paths: &Vec<String>)
    ensures
        views(final(ctx).bib_resources@) == add_resources(views(old(ctx).bib_resources@), views(paths@)),
        final(ctx).unsupported@ == old(ctx).unsupported@,
        final(ctx).defined_labels@ == old(ctx).defined_labels@,
        final(ctx).in_table_cell == old(ctx).in_table_cell,
{
    let mut i: usize = 0;
    while i < paths.len()
        invariant
            i <= paths@.len(),
            views(ctx.bib_resources@) == add_resources(views(old(ctx).bib_resources@), views(paths@.take(i as int))),
            ctx.unsupported@ == old(ctx).unsupported@,
            ctx.defined_labels@ == old(ctx).defined_labels@,
            ctx.in_table_cell == old(ctx).in_table_cell,
        decreases paths@.len() - i,
    {
        proof {
            lemma_views_take(paths@, i as int);
            assert(views(paths@.take(i + 1)).drop_last() =~= views(paths@.take(i as int)));
        }
        if !contains_str(&ctx.bib_resources, paths[i].as_str()) {
            let ghost before = ctx.bib_resources@;
            let c = string_of(paths[i].as_str());
            ctx.bib_resources.push(c);
            proof {
                lemma_views_push(before, c);
            }
        }
        i = i + 1;
    }
    assert(paths@.take(paths@.len() as int) =~= paths@);
}

/// Lower a sequence, gathering consecutive list items into lists.
#[verifier::spinoff_prover]
fn lower_sequence(children: &Vec<Node>, ctx: &mut LowerContext) -> (res: LatexIr)
    ensures
        ({
            let g = grouping(children@, env_of(*old(ctx)), views(old(ctx).bib_resources@));
            &&& res@ == LatexTree::Sequence(flushed(g.children, g.list, g.numbered))
            &&& advanced(*old(ctx), *final(ctx), g.unsup, g.bib)
        }),
    decreases children, 1int,
{
    let ghost env = env_of(*ctx);
    let ghost bib0 = views(ctx.bib_resources@);
    let mut out: Vec<LatexIr> = Vec::new();
    let mut list: Vec<LatexIr> = Vec::new();
    let mut numbered = false;
    let mut i: usize = 0;
    proof {
        lemma_trees(out@);
        lemma_trees(list@);
        assert(children@.take(0) =~= Seq::<Node>::empty());
    }
    while i < children.len()
        invariant
            i <= children@.len(),
            env_of(*ctx) == env,
            ({
                let g = grouping(children@.take(i as int), env, bib0);
                &&& trees(out@) == g.children
                &&& trees(list@) == g.list
                &&& numbered == g.numbered
                &&& advanced(*old(ctx), *ctx, g.unsup, g.bib)
            }),
        decreases children@.len() - i,
    {
        assert(children@.take(i + 1).drop_last() =~= children@.take(i as int));
        assert(decreases_to!(children => children@[i as int]));
        let child = &children[i];
        let is_enum = match child {
            Node::EnumItem(_) => true,
            _ => false,
        };
        let ir = lower_content(child, ctx);
        let is_item = match ir {
            LatexIr::Item(_) => true,
            _ => false,
        };
        let is_space = match ir {
            LatexIr::Space => true,
            _ => false,
        };
        proof {
            lemma_grouping_step(children@.take(i + 1), env, bib0);
        }
        if is_item {
            if list.len() > 0 && numbered != is_enum {
                flush_list(&mut out, &mut list, numbered);
            }
            numbered = is_enum;
            let ghost before = list@;
            list.push(ir);
            proof {
                lemma_trees_push(before, ir);
            }
        } else if is_space && list.len() > 0 {
        } else {
            flush_list(&mut out, &mut list, numbered);
            let ghost before = out@;
            out.push(ir);
            proof {
                lemma_trees_push(before, ir);
            }
        }
        i = i + 1;
    }
    assert(children@.take(children@.len() as int) =~= children@);
    flush_list(&mut out, &mut list, numbered);
    LatexIr::Sequence(out)
}

/// Append the gathered list (if any) to `out`, leaving `list` empty.
fn flush_list(out: &mut Vec<LatexIr>, list: &mut Vec<LatexIr>, numbered: bool)
    ensures
        trees(final(out)@) == flushed(trees(old(out)@), trees(old(list)@), numbered),
        trees(final(list)@) == Seq::<LatexTree>::empty(),
{
    proof {
        lemma_trees(old(list)@);
    }
    if list.len() > 0 {
        let mut items: Vec<LatexIr> = Vec::new();
        std::mem::swap(&mut items, list);
        let made = if numbered {
            LatexIr::NumberedList(items)
        } else {
            LatexIr::List(items)
        };
        let ghost before = out@;
        out.push(made);
        proof {
            lemma_trees_push(before, made);
        }
    }
    proof {
        lemma_trees(list@);
    }
}

/// Lower the block children of a stack, with a ` \\ ` line break between
/// consecutive ones.
#[verifier::spinoff_prover]
fn lower_stack(children: &Vec<StackChild>, ctx: &mut LowerContext) -> (res: Vec<LatexIr>)
    ensures
        ({
            let s = stack_lowering(children@, env_of(*old(ctx)), views(old(ctx).bib_resources@));
            &&& trees(res@) == interleaved(s.irs)
            &&& advanced(*old(ctx), *final(ctx), s.unsup, s.bib)
        }),
    decreases children, 1int,
{
    let ghost env = env_of(*ctx);
    let ghost bib0 = views(ctx.bib_resources@);
    let mut out: Vec<LatexIr> = Vec::new();
    let mut i: usize = 0;
    proof {
        lemma_trees(out@);
        assert(children@.take(0) =~= Seq::<StackChild>::empty());
    }
    while i < children.len()
        invariant
            i <= children@.len(),
            env_of(*ctx) == env,
            ({
                let s = stack_lowering(children@.take(i as int), env, bib0);
                &&& trees(out@) == interleaved(s.irs)
                &&& (out@.len() > 0) == (s.irs.len() > 0)
                &&& advanced(*old(ctx), *ctx, s.unsup, s.bib)
            }),
        decreases children@.len() - i,
    {
        assert(children@.take(i + 1).drop_last() =~= children@.take(i as int));
        assert(decreases_to!(children => children@[i as int]));
        let ghost s = stack_lowering(children@.take(i as int), env, bib0);
        proof {
            lemma_stack_step(children@.take(i + 1), env, bib0);
        }
        match &children[i] {
            StackChild::Block(c) => {
                let ir = lower_content(c, ctx);
                proof {
                    let x = ir@;
                    assert(interleaved(s.irs.push(x)).len() >= 0);
                    if s.irs.len() > 0 {
                        assert(s.irs.push(x).drop_last() =~= s.irs);
                    } else {
                        assert(s.irs.push(x) =~= seq![x]);
                    }
                }
                if out.len() > 0 {
                    let ghost b1 = out@;
                    let sep = LatexIr::Latex(string_of(" \\\\ "));
                    out.push(sep);
                    proof {
                        lemma_trees_push(b1, sep);
                    }
                } else {
                    proof {
                        lemma_trees(out@);
                    }
                }
                let ghost b2 = out@;
                out.push(ir);
                proof {
                    lemma_trees_push(b2, ir);
                }
            },
            StackChild::Spacing => {},
        }
        i = i + 1;
    }
    assert(children@.take(children@.len() as int) =~= children@);
    out
}

/// Lower the content values among `values`, in turn.
#[verifier::spinoff_prover]
fn lower_values(values: &Vec<Value>, ctx: &mut LowerContext) -> (res: Vec<LatexIr>)
    ensures
        ({
            let s = values_lowering(values@, env_of(*old(ctx)), views(old(ctx).bib_resources@));
            &&& trees(res@) == s.irs
            &&& advanced(*old(ctx), *final(ctx), s.unsup, s.bib)
        }),
    decreases values, 1int,
{
    let ghost env = env_of(*ctx);
    let ghost bib0 = views(ctx.bib_resources@);
    let mut out: Vec<LatexIr> = Vec::new();
    let mut i: usize = 0;
    proof {
        lemma_trees(out@);
        assert(values@.take(0) =~= Seq::<Value>::empty());
    }
    while i < values.len()
        invariant
            i <= values@.len(),
            env_of(*ctx) == env,
            ({
                let s = values_lowering(values@.take(i as int), env, bib0);
                &&& trees(out@) == s.irs
                &&& advanced(*old(ctx), *ctx, s.unsup, s.bib)
            }),
        decreases values@.len() - i,
    {
        assert(values@.take(i + 1).drop_last() =~= values@.take(i as int));
        proof {
            lemma_values_step(values@.take(i + 1), env, bib0);
        }
        assert(decreases_to!(values => values@[i as int]));
        match &values[i] {
            Value::Content(c) => {
                let ir = lower_content(c, ctx);
                let ghost before = out@;
                out.push(ir);
                proof {
                    lemma_trees_push(before, ir);
                }
            },
            _ => {},
        }
        i = i + 1;
    }
    assert(values@.take(values@.len() as int) =~= values@);
    out
}

/// Lower a table item after the cells already in `acc`, if it is a cell.
#[verifier::spinoff_prover]
#[verifier::rlimit(40)]
fn lower_item(
    item: &TableItem,
    ctx: &mut LowerContext,
    acc: &mut Vec<LatexIr>,
    Ghost(base): Ghost<Seq<UnsupportedView>>,
    Ghost(prev): Ghost<LoweredList>,
)
    requires
        trees(old(acc)@) == prev.irs,
        unsupported_views(old(ctx).unsupported@) == base + prev.unsup,
        views(old(ctx).bib_resources@) == prev.bib,
    ensures
        ({
            let r = item_lowering(*item, env_of(*old(ctx)), prev);
            &&& trees(final(acc)@) == r.irs
            &&& unsupported_views(final(ctx).unsupported@) =~= base + r.unsup
            &&& views(final(ctx).bib_resources@) =~= r.bib
            &&& final(ctx).defined_labels@ == old(ctx).defined_labels@
            &&& final(ctx).in_table_cell == old(ctx).in_table_cell
        }),
    decreases item, 1int,
{
    proof {
        lemma_item_step(*item, env_of(*ctx), prev);
    }
    match item {
        TableItem::Cell(c) => {
            let ir = lower_content(c, ctx);
            let ghost before = acc@;
            acc.push(ir);
            proof {
                lemma_trees_push(before, ir);
            }
        },
        TableItem::Other => {},
    }
}

/// Lower the cells among `items` after the cells already in `acc`.
#[verifier::spinoff_prover]
fn lower_items(
    items: &Vec<TableItem>,
    ctx: &mut LowerContext,
    acc: &mut Vec<LatexIr>,
    Ghost(base): Ghost<Seq<UnsupportedView>>,
    Ghost(prev): Ghost<LoweredList>,
)
    requires
        trees(old(acc)@) == prev.irs,
        unsupported_views(old(ctx).unsupported@) == base + prev.unsup,
        views(old(ctx).bib_resources@) == prev.bib,
    ensures
        ({
            let r = items_lowering(items@, env_of(*old(ctx)), prev);
            &&& trees(final(acc)@) == r.irs
            &&& unsupported_views(final(ctx).unsupported@) =~= base + r.unsup
            &&& views(final(ctx).bib_resources@) =~= r.bib
            &&& final(ctx).defined_labels@ == old(ctx).defined_labels@
            &&& final(ctx).in_table_cell == old(ctx).in_table_cell
        }),
    decreases items, 1int,
{
    let ghost env = env_of(*ctx);
    let mut i: usize = 0;
    assert(items@.take(0) =~= Seq::<TableItem>::empty());
    while i < items.len()
        invariant
            i <= items@.len(),
            env_of(*ctx) == env,
            ({
                let r = items_lowering(items@.take(i as int), env, prev);
                &&& trees(acc@) == r.irs
                &&& unsupported_views(ctx.unsupported@) == base + r.unsup
                &&& views(ctx.bib_resources@) == r.bib
            }),
            ctx.defined_labels@ == old(ctx).defined_labels@,
            ctx.in_table_cell == old(ctx).in_table_cell,
        decreases items@.len() - i,
    {
        assert(items@.take(i + 1).drop_last() =~= items@.take(i as int));
        assert(decreases_to!(items => items@[i as int]));
        let ghost r = items_lowering(items@.take(i as int), env, prev);
        lower_item(&items[i], ctx, acc, Ghost(base), Ghost(r));
        i = i + 1;
    }
    assert(items@.take(items@.len() as int) =~= items@);
}

/// Lower the cells of a table: its items, header and footer, in order.
#[verifier::spinoff_prover]
fn lower_cells(children: &Vec<TableChild>, ctx: &mut LowerContext) -> (res: Vec<LatexIr>)
    ensures
        ({
            let s = cells_lowering(children@, env_of(*old(ctx)), views(old(ctx).bib_resources@));
            &&& trees(res@) == s.irs
            &&& advanced(*old(ctx), *final(ctx), s.unsup, s.bib)
        }),
    decreases children, 1int,
{
    let ghost env = env_of(*ctx);
    let ghost bib0 = views(ctx.bib_resources@);
    let ghost base = unsupported_views(ctx.unsupported@);
    let mut out: Vec<LatexIr> = Vec::new();
    let mut i: usize = 0;
    proof {
        lemma_trees(out@);
        assert(children@.take(0) =~= Seq::<TableChild>::empty());
    }
    while i < children.len()
        invariant
            i <= children@.len(),
            env_of(*ctx) == env,
            base == unsupported_views(old(ctx).unsupported@),
            ({
                let s = cells_lowering(children@.take(i as int), env, bib0);
                &&& trees(out@) == s.irs
                &&& unsupported_views(ctx.unsupported@) == base + s.unsup
                &&& views(ctx.bib_resources@) == s.bib
            }),
            ctx.defined_labels@ == old(ctx).defined_labels@,
            ctx.in_table_cell == old(ctx).in_table_cell,
        decreases children@.len() - i,
    {
        assert(children@.take(i + 1).drop_last() =~= children@.take(i as int));
        assert(decreases_to!(children => children@[i as int]));
        let ghost s = cells_lowering(children@.take(i as int), env, bib0);
        match &children[i] {
            TableChild::Item(item) => lower_item(item, ctx, &mut out, Ghost(base), Ghost(s)),
            TableChild::Header(items) => lower_items(items, ctx, &mut out, Ghost(base), Ghost(s)),
            TableChild::Footer(items) => lower_items(items, ctx, &mut out, Ghost(base), Ghost(s)),
        }
        i = i + 1;
    }
    assert(children@.take(children@.len() as int) =~= children@);
    out
}

/// Cut the cells into rows of `cols` cells (the last row may be shorter).
fn chunk_rows(cells: Vec<LatexIr>, cols: usize) -> (res: Vec<Vec<LatexIr>>)
    requires
        cols > 0,
    ensures
        tree_rows(res@) == chunks(trees(cells@), cols as nat),
{
    let ghost all = trees(cells@);
    let mut rows: Vec<Vec<LatexIr>> = Vec::new();
    let mut rest = cells;
    assert(tree_rows(rows@) =~= Seq::<Seq<LatexTree>>::empty());
    while rest.len() > 0
        invariant
            cols > 0,
            tree_rows(rows@) + chunks(trees(rest@), cols as nat) == chunks(all, cols as nat),
        decreases rest@.len(),
    {
        proof {
            lemma_trees(rest@);
        }
        let ghost t = trees(rest@);
        let ghost before = rows@;
        if rest.len() <= cols {
            let mut last: Vec<LatexIr> = Vec::new();
            std::mem::swap(&mut last, &mut rest);
            rows.push(last);
            proof {
                assert(rows@.drop_last() =~= before);
                lemma_trees(rest@);
                assert(chunks(trees(rest@), cols as nat) =~= Seq::<Seq<LatexTree>>::empty());
                assert(tree_rows(rows@) + chunks(trees(rest@), cols as nat) =~= tree_rows(before)
                    + chunks(t, cols as nat));
            }
        } else {
            let ghost r0 = rest@;
            let tail = rest.split_off(cols);
            let mut head: Vec<LatexIr> = Vec::new();
            std::mem::swap(&mut head, &mut rest);
            rest = tail;
            rows.push(head);
            proof {
                assert(rows@.drop_last() =~= before);
                lemma_trees_subrange(r0, 0, cols as int);
                lemma_trees_subrange(r0, cols as int, r0.len() as int);
                assert(t.take(cols as int) =~= t.subrange(0, cols as int));
                assert(t.skip(cols as int) =~= t.subrange(cols as int, t.len() as int));
                assert(tree_rows(rows@) + chunks(trees(rest@), cols as nat) =~= tree_rows(before)
                    + chunks(t, cols as nat));
            }
        }
    }
    proof {
        lemma_trees(rest@);
        assert(tree_rows(rows@) =~= tree_rows(rows@) + chunks(trees(rest@), cols as nat));
    }
    rows
}

/// Lower a table into a simple `tabular`: the column count comes from the
/// table's columns (at least one), the cells are lowered inside a table
/// cell in row-major order and cut into rows.
#[verifier::spinoff_prover]
fn lower_table(n: &Node, ctx: &mut LowerContext) -> (res: LatexIr)
    requires
        n is Table,
    ensures
        res@ == lowered_in(*old(ctx), *n).ir,
        advanced(*old(ctx), *final(ctx), lowered_in(*old(ctx), *n).unsup, lowered_in(*old(ctx), *n).bib),
    decreases n, 1int,
{
    proof {
        reveal(lowering);
    }
    match n {
        Node::Table { columns, children } => {
            let cols: usize = if *columns < 1 {
                1
            } else {
                *columns
            };
            let was_in_cell = ctx.in_table_cell;
            ctx.in_table_cell = true;
            let cells = lower_cells(children, ctx);
            ctx.in_table_cell = was_in_cell;
            let rows = chunk_rows(cells, cols);
            LatexIr::Table { cols, rows }
        },
        _ => LatexIr::Space,
    }
}

/// Lower a figure: a theorion theorem environment when its body carries the
/// frame metadata, else a `figure` with its body and caption.
#[verifier::spinoff_prover]
fn lower_figure(n: &Node, ctx: &mut LowerContext) -> (res: LatexIr)
    requires
        n is Figure,
    ensures
        res@ == lowered_in(*old(ctx), *n).ir,
        advanced(*old(ctx), *final(ctx), lowered_in(*old(ctx), *n).unsup, lowered_in(*old(ctx), *n).bib),
    decreases n, 1int,
{
    proof {
        lemma_lowering_figure(*n, env_of(*ctx), views(ctx.bib_resources@));
    }
    match n {
        Node::Figure { body, caption } => {
            proof {
                lemma_theorem_frame(**body);
            }
            match theorem_frame_of(body) {
                Some((kind, title, b)) => {
                    let ghost env = env_of(*ctx);
                    let ghost bib = views(ctx.bib_resources@);
                    let ghost f = theorem_frame(**body)->Some_0;
                    let t = match title {
                        Some(Value::Content(c)) => Some(Box::new(lower_content(c, ctx))),
                        Some(Value::Str(s)) => {
                            if s.as_str().unicode_len() > 0 {
                                Some(Box::new(LatexIr::Text(string_of(s.as_str()))))
                            } else {
                                None
                            }
                        },
                        _ => None,
                    };
                    proof {
                        let tl = match f.title {
                            Some(Value::Content(c)) => lowering(*c, env, bib),
                            _ => plain(LatexTree::Space, bib),
                        };
                        assert(views(ctx.bib_resources@) == tl.bib);
                        assert(f.body == *b);
                        assert(match t {
                            Some(x) => Some(Box::new(x@)),
                            None => None,
                        } == match f.title {
                            Some(Value::Content(c)) => Some(Box::new(tl.ir)),
                            Some(Value::Str(s)) => if s@.len() > 0 {
                                Some(Box::new(LatexTree::Text(s@)))
                            } else {
                                None
                            },
                            _ => None,
                        });
                    }
                    let body_ir = lower_content(b, ctx);
                    LatexIr::TheoremEnv { env: string_of(kind.as_str()), title: t, body: Box::new(body_ir) }
                },
                None => {
                    let b = lower_content(body, ctx);
                    let c = match caption {
                        Some(c) => Some(Box::new(lower_content(c, ctx))),
                        None => None,
                    };
                    LatexIr::Figure { body: Box::new(b), caption: c }
                },
            }
        },
        _ => LatexIr::Space,
    }
}

/// The theorion frame metadata inside `n`.
fn find_frame_of(n: &Node) -> (res: Option<&Vec<(String, Value)>>)
    ensures
        match res {
            Some(e) => find_frame(*n) == Some(e@),
            None => find_frame(*n) is None,
        },
    decreases n, 1int,
{
    match n {
        Node::Metadata { value, .. } => match value {
            Value::Dict(entries) => {
                if dict_lookup(entries, "identifier").is_some() && dict_lookup(entries, "kind").is_some()
                    && dict_lookup(entries, "body").is_some() {
                    Some(entries)
                } else {
                    None
                }
            },
            _ => None,
        },
        Node::Sequence(children) => find_frame_among(children),
        Node::Styled { child, .. } => find_frame_of(child),
        Node::Labelled(inner, _) => find_frame_of(inner),
        _ => None,
    }
}

/// The first theorion frame metadata among `children`.
fn find_frame_among(children: &Vec<Node>) -> (res: Option<&Vec<(String, Value)>>)
    ensures
        match res {
            Some(e) => find_frame_seq(children@) == Some(e@),
            None => find_frame_seq(children@) is None,
        },
    decreases children, 0int,
{
    let mut i: usize = 0;
    assert(children@.skip(0) =~= children@);
    while i < children.len()
        invariant
            i <= children@.len(),
            find_frame_seq(children@) == find_frame_seq(children@.skip(i as int)),
        decreases children@.len() - i,
    {
        assert(children@.skip(i as int).drop_first() =~= children@.skip(i + 1));
        assert(children@.skip(i as int)[0] == children@[i as int]);
        assert(decreases_to!(children => children@[i as int]));
        match find_frame_of(&children[i]) {
            Some(e) => {
                return Some(e);
            },
            None => {},
        }
        i = i + 1;
    }
    assert(children@.skip(i as int) =~= Seq::<Node>::empty());
    None
}

/// The index of the entry with key `key`.
fn dict_lookup(entries: &Vec<(String, Value)>, key: &str) -> (res: Option<usize>)
    ensures
        match res {
            Some(i) => dict_index(entries@, key@) == Some(i as int),
            None => dict_index(entries@, key@) is None,
        },
{
    let mut i: usize = 0;
    assert(entries@.skip(0) =~= entries@);
    while i < entries.len()
        invariant
            i <= entries@.len(),
            dict_index(entries@, key@) == match dict_index(entries@.skip(i as int), key@) {
                Some(j) => Some(j + i),
                None => None,
            },
        decreases entries@.len() - i,
    {
        assert(entries@.skip(i as int).drop_first() =~= entries@.skip(i + 1));
        assert(entries@.skip(i as int)[0] == entries@[i as int]);
        if str_eq(entries[i].0.as_str(), key) {
            return Some(i);
        }
        i = i + 1;
    }
    None
}

/// The kind, the title entry and the body of the theorion frame inside a
/// figure body.
fn theorem_frame_of(body: &Node) -> (res: Option<(&String, Option<&Value>, &Node)>)
    ensures
        match res {
            Some((kind, title, b)) => theorem_frame(*body) == Some(
                (TheoremFrame {
                    kind: kind@,
                    title: match title {
                        Some(t) => Some(*t),
                        None => None,
                    },
                    body: *b,
                }),
            ),
            None => theorem_frame(*body) is None,
        },
{
    proof {
        reveal(theorem_frame);
    }
    let entries = match find_frame_of(body) {
        Some(e) => e,
        None => {
            return None;
        },
    };
    proof {
        lemma_dict_index(entries@, "kind"@);
        lemma_dict_index(entries@, "body"@);
        lemma_dict_index(entries@, "title"@);
    }
    let kind = match dict_lookup(entries, "kind") {
        Some(i) => match &entries[i].1 {
            Value::Str(s) => s,
            _ => {
                return None;
            },
        },
        None => {
            return None;
        },
    };
    let b = match dict_lookup(entries, "body") {
        Some(i) => match &entries[i].1 {
            Value::Content(c) => c,
            _ => {
                return None;
            },
        },
        None => {
            return None;
        },
    };
    let title = match dict_lookup(entries, "title") {
        Some(i) => Some(&entries[i].1),
        None => None,
    };
    Some((kind, title, &**b))
}

/// The parts of a curryst marker, borrowed from the metadata value.
enum MarkerParts<'a> {
    Rule(&'a Vec<Value>, &'a Node),
    RuleSet(&'a Vec<Value>),
    ProofTree(&'a Node),
}

/// The marker that borrowed parts describe.
spec fn marker_of<'a>(m: MarkerParts<'a>) -> CurrystMarker {
    match m {
        MarkerParts::Rule(p, c) => CurrystMarker::Rule { premises: *p, conclusion: *c },
        MarkerParts::RuleSet(t) => CurrystMarker::RuleSet(*t),
        MarkerParts::ProofTree(r) => CurrystMarker::ProofTree(*r),
    }
}

/// The curryst marker a metadata value is, if any.
fn curryst_parts_of(value: &Value) -> (res: Option<MarkerParts>)
    ensures
        match res {
            Some(m) => curryst_marker(*value) == Some(marker_of(m)),
            None => curryst_marker(*value) is None,
        },
{
    proof {
        reveal(curryst_marker);
    }
    let entries = match value {
        Value::Dict(e) => e,
        _ => {
            return None;
        },
    };
    proof {
        lemma_dict_index(entries@, "type"@);
        lemma_dict_index(entries@, "premises"@);
        lemma_dict_index(entries@, "conclusion"@);
        lemma_dict_index(entries@, "trees"@);
        lemma_dict_index(entries@, "rule"@);
    }
    let kind = match dict_lookup(entries, "type") {
        Some(i) => match &entries[i].1 {
            Value::Str(s) => s,
            _ => {
                return None;
            },
        },
        None => {
            return None;
        },
    };
    if str_eq(kind.as_str(), "curryst-rule") {
        let premises = match dict_lookup(entries, "premises") {
            Some(i) => match &entries[i].1 {
                Value::Array(a) => a,
                _ => {
                    return None;
                },
            },
            None => {
                return None;
            },
        };
        match dict_lookup(entries, "conclusion") {
            Some(i) => match &entries[i].1 {
                Value::Content(c) => Some(MarkerParts::Rule(premises, &**c)),
                _ => None,
            },
            None => None,
        }
    } else if str_eq(kind.as_str(), "curryst-rule-set") {
        match dict_lookup(entries, "trees") {
            Some(i) => match &entries[i].1 {
                Value::Array(a) => Some(MarkerParts::RuleSet(a)),
                _ => None,
            },
            None => None,
        }
    } else if str_eq(kind.as_str(), "curryst-prooftree") {
        match dict_lookup(entries, "rule") {
            Some(i) => match &entries[i].1 {
                Value::Content(r) => Some(MarkerParts::ProofTree(&**r)),
                _ => None,
            },
            None => None,
        }
    } else {
        None
    }
}

} // verus!

verus! {

/// An element that cannot be lowered never vanishes: it becomes the visible
/// marker `\texttt{[unsupported Typst element: name]}` and leaves exactly one
/// record, with its name and provenance.
pub proof fn law_unsupported_marked(name: String, span: Option<SpanInfo>, env: Env, bib: Seq<Seq<char>>)
    ensures
        ({
            let l = lowering(Node::Other { name, span }, env, bib);
            &&& rendered(l.ir) == "\\texttt{[unsupported Typst element: "@ + name@ + "]}"@
            &&& l.unsup == seq![record(name@, span)]
            &&& l.bib == bib
        }),
{
    reveal(lowering);
}

/// A labelled element renders as the element followed by `\label{key}`, so
/// that cross-references to it resolve.
pub proof fn law_label_emitted(inner: Node, key: String, env: Env, bib: Seq<Seq<char>>)
    ensures
        rendered(lowering(Node::Labelled(Box::new(inner), key), env, bib).ir) == rendered(
            lowering(inner, env, bib).ir,
        ) + "\\label{"@ + key@ + "}"@,
{
    let n = Node::Labelled(Box::new(inner), key);
    lemma_lowering_wrapped(n, env, bib);
    let a = lowering(inner, env, bib).ir;
    let b = LatexTree::Latex("\\label{"@ + key@ + "}"@);
    let s = seq![a, b];
    assert(s.drop_last() =~= seq![a]);
    assert(rendered_join(s, Seq::empty()) == rendered_join(seq![a], Seq::empty()) + Seq::<char>::empty()
        + rendered(b));
    assert(rendered_join(s, Seq::empty()) =~= rendered(a) + rendered(b));
}

/// A reference `@key` becomes `\ref{key}` when the document defines the
/// label `key`, and a citation `\cite{key}` otherwise.
pub proof fn law_reference_or_citation(key: String, env: Env, bib: Seq<Seq<char>>)
    ensures
        rendered(lowering(Node::Ref(key), env, bib).ir) == if env.labels.contains(key@) {
            "\\ref{"@ + key@ + "}"@
        } else {
            "\\cite{"@ + key@ + "}"@
        },
{
    lemma_lowering_leaf(Node::Ref(key), env, bib);
    assert(join(seq![key@], ","@) == key@) by {
        reveal_with_fuel(join, 2);
    }
}

/// Bibliography resources are kept without repetition: adding `paths` keeps
/// the resources already known, in order, adds every path, and adds nothing
/// else.
pub proof fn law_resources_unique(bib: Seq<Seq<char>>, paths: Seq<Seq<char>>)
    requires
        bib.no_duplicates(),
    ensures
        add_resources(bib, paths).no_duplicates(),
        add_resources(bib, paths).len() >= bib.len(),
        add_resources(bib, paths).take(bib.len() as int) == bib,
        forall|p: Seq<char>| paths.contains(p) ==> add_resources(bib, paths).contains(p),
        forall|p: Seq<char>| add_resources(bib, paths).contains(p) ==> bib.contains(p) || paths.contains(p),
    decreases paths.len(),
{
    if paths.len() > 0 {
        let prev = paths.drop_last();
        law_resources_unique(bib, prev);
        let b = add_resources(bib, prev);
        let r = add_resources(bib, paths);
        assert(r.take(bib.len() as int) =~= bib) by {
            if !b.contains(paths.last()) {
                assert(b.push(paths.last()).take(bib.len() as int) =~= b.take(bib.len() as int));
            }
        }
        assert forall|p: Seq<char>| paths.contains(p) implies r.contains(p) by {
            let i = choose|i: int| 0 <= i < paths.len() && paths[i] == p;
            if i < paths.len() - 1 {
                assert(prev[i] == p);
                assert(prev.contains(p));
                let j = choose|j: int| 0 <= j < b.len() && b[j] == p;
                if !b.contains(paths.last()) {
                    assert(r[j] == p);
                }
            } else if !b.contains(paths.last()) {
                assert(r[r.len() - 1] == p);
            }
        }
        assert forall|p: Seq<char>| r.contains(p) implies bib.contains(p) || paths.contains(p) by {
            let j = choose|j: int| 0 <= j < r.len() && r[j] == p;
            if j < b.len() {
                assert(b[j] == p);
                assert(b.contains(p));
                if prev.contains(p) {
                    let i = choose|i: int| 0 <= i < prev.len() && prev[i] == p;
                    assert(paths[i] == p);
                }
            } else {
                assert(paths[paths.len() - 1] == p);
            }
        }
    } else {
        assert(bib.take(bib.len() as int) =~= bib);
    }
}

/// A table's cells are cut into rows of exactly `n` cells but for the last
/// row, which holds between one and `n`; read in order, the rows give back
/// the cells.
pub proof fn law_rows_partition(s: Seq<LatexTree>, n: nat)
    requires
        n > 0,
    ensures
        chunks(s, n).flatten() == s,
        forall|i: int| 0 <= i < chunks(s, n).len() - 1 ==> #[trigger] chunks(s, n)[i].len() == n,
        chunks(s, n).len() > 0 ==> 0 < chunks(s, n).last().len() <= n,
        (chunks(s, n).len() == 0) == (s.len() == 0),
    decreases s.len(),
{
    if s.len() == 0 {
    } else if s.len() <= n {
        let c = chunks(s, n);
        assert(c =~= seq![s]);
        assert(c.drop_first() =~= Seq::<Seq<LatexTree>>::empty());
        assert(c.drop_first().flatten() =~= Seq::<LatexTree>::empty());
        assert(c.flatten() =~= s);
    } else {
        let rest = s.skip(n as int);
        law_rows_partition(rest, n);
        let c = chunks(s, n);
        assert(c =~= seq![s.take(n as int)] + chunks(rest, n));
        assert(c.drop_first() =~= chunks(rest, n));
        assert(c.flatten() =~= s.take(n as int) + chunks(rest, n).flatten());
        assert(s.take(n as int) + rest =~= s);
        assert forall|i: int| 0 <= i < c.len() - 1 implies #[trigger] c[i].len() == n by {
            if i > 0 {
                assert(c[i] == chunks(rest, n)[i - 1]);
            }
        }
        assert(c.last() == chunks(rest, n).last());
    }
}

} // verus!

verus! {

/// The bibliography resources `after` keep those of `before`: in order, at
/// the front, and with no resource twice.
pub open spec fn resources_kept(before: Seq<Seq<char>>, after: Seq<Seq<char>>) -> bool {
    &&& after.no_duplicates()
    &&& before.len() <= after.len()
    &&& after.take(before.len() as int) == before
}

proof fn lemma_kept_refl(bib: Seq<Seq<char>>)
    requires
        bib.no_duplicates(),
    ensures
        resources_kept(bib, bib),
{
    assert(bib.take(bib.len() as int) =~= bib);
}

proof fn lemma_kept_trans(a: Seq<Seq<char>>, b: Seq<Seq<char>>, c: Seq<Seq<char>>)
    requires
        resources_kept(a, b),
        resources_kept(b, c),
    ensures
        resources_kept(a, c),
{
    assert(c.take(a.len() as int) =~= c.take(b.len() as int).take(a.len() as int));
}

/// The bibliography resources after lowering `n`, one step of `lowering`
/// deep.
proof fn lemma_lowering_bib(n: Node, env: Env, bib: Seq<Seq<char>>)
    ensures
        lowering(n, env, bib).bib == match n {
            Node::Labelled(inner, _) => lowering(*inner, env, bib).bib,
            Node::Sequence(children) => grouping(children@, env, bib).bib,
            Node::Styled { child, .. } => lowering(*child, env, bib).bib,
            Node::Heading { body, .. } => lowering(*body, env, bib).bib,
            Node::ListItem(b) => lowering(*b, env, bib).bib,
            Node::EnumItem(b) => lowering(*b, env, bib).bib,
            Node::TermItem(b) => lowering(*b, env, bib).bib,
            Node::Block(Some(b)) => lowering(*b, env, bib).bib,
            Node::Rect(Some(b)) => lowering(*b, env, bib).bib,
            Node::Link(b) => lowering(*b, env, bib).bib,
            Node::Boxed(Some(b)) => lowering(*b, env, bib).bib,
            Node::Align(b) => lowering(*b, env, bib).bib,
            Node::Stack(children) => stack_lowering(children@, env, bib).bib,
            Node::Footnote(FootnoteBody::Content(c)) => lowering(*c, env, bib).bib,
            Node::Strong(b) => lowering(*b, env, bib).bib,
            Node::Emph(b) => lowering(*b, env, bib).bib,
            Node::Bibliography(paths) => add_resources(bib, views(paths@)),
            Node::Figure { body, caption } => match theorem_frame(*body) {
                Some(f) => {
                    let tb = match f.title {
                        Some(Value::Content(c)) => lowering(*c, env, bib).bib,
                        _ => bib,
                    };
                    lowering(f.body, env, tb).bib
                },
                None => {
                    let b = lowering(*body, env, bib).bib;
                    match caption {
                        Some(c) => lowering(*c, env, b).bib,
                        None => b,
                    }
                },
            },
            Node::Table { children, .. } => cells_lowering(children@, Env { in_cell: true, ..env }, bib).bib,
            Node::Metadata { value, .. } => match curryst_marker(value) {
                Some(CurrystMarker::Rule { premises, conclusion }) => lowering(
                    conclusion,
                    env,
                    values_lowering(premises@, env, bib).bib,
                ).bib,
                Some(CurrystMarker::RuleSet(trees)) => values_lowering(trees@, env, bib).bib,
                Some(CurrystMarker::ProofTree(rule)) => lowering(rule, env, bib).bib,
                None => bib,
            },
            _ => bib,
        },
{
    reveal(lowering);
}

/// Lowering never loses, reorders or repeats bibliography resources: the
/// resources known before come first, in order, and none occurs twice.
pub proof fn law_lowering_keeps_resources(n: Node, env: Env, bib: Seq<Seq<char>>)
    requires
        bib.no_duplicates(),
    ensures
        resources_kept(bib, lowering(n, env, bib).bib),
    decreases n,
{
    lemma_lowering_bib(n, env, bib);
    match n {
        Node::Labelled(inner, _) => law_lowering_keeps_resources(*inner, env, bib),
        Node::Sequence(children) => lemma_grouping_keeps(children@, env, bib),
        Node::Styled { child, .. } => law_lowering_keeps_resources(*child, env, bib),
        Node::Heading { body, .. } => law_lowering_keeps_resources(*body, env, bib),
        Node::ListItem(b) => law_lowering_keeps_resources(*b, env, bib),
        Node::EnumItem(b) => law_lowering_keeps_resources(*b, env, bib),
        Node::TermItem(b) => law_lowering_keeps_resources(*b, env, bib),
        Node::Block(Some(b)) => law_lowering_keeps_resources(*b, env, bib),
        Node::Rect(Some(b)) => law_lowering_keeps_resources(*b, env, bib),
        Node::Link(b) => law_lowering_keeps_resources(*b, env, bib),
        Node::Boxed(Some(b)) => law_lowering_keeps_resources(*b, env, bib),
        Node::Align(b) => law_lowering_keeps_resources(*b, env, bib),
        Node::Stack(children) => lemma_stack_keeps(children@, env, bib),
        Node::Footnote(FootnoteBody::Content(c)) => law_lowering_keeps_resources(*c, env, bib),
        Node::Strong(b) => law_lowering_keeps_resources(*b, env, bib),
        Node::Emph(b) => law_lowering_keeps_resources(*b, env, bib),
        Node::Bibliography(paths) => law_resources_unique(bib, views(paths@)),
        Node::Figure { body, caption } => {
            lemma_theorem_frame(*body);
            match theorem_frame(*body) {
                Some(f) => {
                    let tb = match f.title {
                        Some(Value::Content(c)) => {
                            law_lowering_keeps_resources(*c, env, bib);
                            lowering(*c, env, bib).bib
                        },
                        _ => {
                            lemma_kept_refl(bib);
                            bib
                        },
                    };
                    law_lowering_keeps_resources(f.body, env, tb);
                    lemma_kept_trans(bib, tb, lowering(f.body, env, tb).bib);
                },
                None => {
                    law_lowering_keeps_resources(*body, env, bib);
                    let b = lowering(*body, env, bib).bib;
                    if let Some(c) = caption {
                        law_lowering_keeps_resources(*c, env, b);
                        lemma_kept_trans(bib, b, lowering(*c, env, b).bib);
                    }
                },
            }
        },
        Node::Table { children, .. } => lemma_cells_keeps(children@, Env { in_cell: true, ..env }, bib),
        Node::Metadata { value, .. } => {
            lemma_curryst_marker(value);
            match curryst_marker(value) {
                Some(CurrystMarker::Rule { premises, conclusion }) => {
                    lemma_values_keeps(premises@, env, bib);
                    let pb = values_lowering(premises@, env, bib).bib;
                    law_lowering_keeps_resources(conclusion, env, pb);
                    lemma_kept_trans(bib, pb, lowering(conclusion, env, pb).bib);
                },
                Some(CurrystMarker::RuleSet(trees)) => lemma_values_keeps(trees@, env, bib),
                Some(CurrystMarker::ProofTree(rule)) => law_lowering_keeps_resources(rule, env, bib),
                None => lemma_kept_refl(bib),
            }
        },
        _ => lemma_kept_refl(bib),
    }
}

proof fn lemma_grouping_keeps(s: Seq<Node>, env: Env, bib: Seq<Seq<char>>)
    requires
        bib.no_duplicates(),
    ensures
        resources_kept(bib, grouping(s, env, bib).bib),
    decreases s,
{
    if s.len() == 0 {
        lemma_kept_refl(bib);
    } else {
        lemma_grouping_step(s, env, bib);
        lemma_grouping_keeps(s.drop_last(), env, bib);
        let g = grouping(s.drop_last(), env, bib);
        law_lowering_keeps_resources(s.last(), env, g.bib);
        lemma_kept_trans(bib, g.bib, lowering(s.last(), env, g.bib).bib);
    }
}

proof fn lemma_stack_keeps(s: Seq<StackChild>, env: Env, bib: Seq<Seq<char>>)
    requires
        bib.no_duplicates(),
    ensures
        resources_kept(bib, stack_lowering(s, env, bib).bib),
    decreases s,
{
    if s.len() == 0 {
        lemma_kept_refl(bib);
    } else {
        lemma_stack_step(s, env, bib);
        lemma_stack_keeps(s.drop_last(), env, bib);
        let prev = stack_lowering(s.drop_last(), env, bib);
        if let StackChild::Block(c) = s.last() {
            law_lowering_keeps_resources(c, env, prev.bib);
            lemma_kept_trans(bib, prev.bib, lowering(c, env, prev.bib).bib);
        }
    }
}

proof fn lemma_values_keeps(s: Seq<Value>, env: Env, bib: Seq<Seq<char>>)
    requires
        bib.no_duplicates(),
    ensures
        resources_kept(bib, values_lowering(s, env, bib).bib),
    decreases s,
{
    if s.len() == 0 {
        lemma_kept_refl(bib);
    } else {
        lemma_values_step(s, env, bib);
        lemma_values_keeps(s.drop_last(), env, bib);
        let prev = values_lowering(s.drop_last(), env, bib);
        if let Value::Content(c) = s.last() {
            law_lowering_keeps_resources(*c, env, prev.bib);
            lemma_kept_trans(bib, prev.bib, lowering(*c, env, prev.bib).bib);
        }
    }
}

proof fn lemma_item_keeps(item: TableItem, env: Env, prev: LoweredList)
    requires
        prev.bib.no_duplicates(),
    ensures
        resources_kept(prev.bib, item_lowering(item, env, prev).bib),
    decreases item,
{
    lemma_item_step(item, env, prev);
    match item {
        TableItem::Cell(c) => law_lowering_keeps_resources(c, env, prev.bib),
        TableItem::Other => lemma_kept_refl(prev.bib),
    }
}

proof fn lemma_items_keeps(s: Seq<TableItem>, env: Env, prev: LoweredList)
    requires
        prev.bib.no_duplicates(),
    ensures
        resources_kept(prev.bib, items_lowering(s, env, prev).bib),
    decreases s,
{
    if s.len() == 0 {
        lemma_kept_refl(prev.bib);
    } else {
        lemma_items_keeps(s.drop_last(), env, prev);
        let mid = items_lowering(s.drop_last(), env, prev);
        lemma_item_keeps(s.last(), env, mid);
        lemma_kept_trans(prev.bib, mid.bib, item_lowering(s.last(), env, mid).bib);
    }
}

proof fn lemma_cells_keeps(s: Seq<TableChild>, env: Env, bib: Seq<Seq<char>>)
    requires
        bib.no_duplicates(),
    ensures
        resources_kept(bib, cells_lowering(s, env, bib).bib),
    decreases s,
{
    if s.len() == 0 {
        lemma_kept_refl(bib);
    } else {
        lemma_cells_keeps(s.drop_last(), env, bib);
        let prev = cells_lowering(s.drop_last(), env, bib);
        match s.last() {
            TableChild::Item(item) => {
                lemma_item_keeps(item, env, prev);
                lemma_kept_trans(bib, prev.bib, item_lowering(item, env, prev).bib);
            },
            TableChild::Header(items) => {
                lemma_items_keeps(items@, env, prev);
                lemma_kept_trans(bib, prev.bib, items_lowering(items@, env, prev).bib);
            },
            TableChild::Footer(items) => {
                lemma_items_keeps(items@, env, prev);
                lemma_kept_trans(bib, prev.bib, items_lowering(items@, env, prev).bib);
            },
        }
    }
}

} // verus!

verus! {

/// List items never stand alone in a lowered sequence: every item lands in
/// a list, and every gathered list holds items only.
pub proof fn law_items_gathered(s: Seq<Node>, env: Env, bib: Seq<Seq<char>>)
    ensures
        ({
            let g = grouping(s, env, bib);
            let out = flushed(g.children, g.list, g.numbered);
            &&& forall|i: int| 0 <= i < out.len() ==> !(#[trigger] out[i] is Item)
            &&& forall|i: int| 0 <= i < g.list.len() ==> #[trigger] g.list[i] is Item
        }),
    decreases s,
{
    if s.len() > 0 {
        lemma_grouping_step(s, env, bib);
        law_items_gathered(s.drop_last(), env, bib);
        let g0 = grouping(s.drop_last(), env, bib);
        let f0 = flushed(g0.children, g0.list, g0.numbered);
        assert forall|i: int| 0 <= i < f0.len() implies !(#[trigger] f0[i] is Item) by {}
        assert forall|i: int| 0 <= i < g0.children.len() implies !(#[trigger] g0.children[i] is Item) by {
            assert(f0[i] == g0.children[i]);
        }
        let g = grouping(s, env, bib);
        let out = flushed(g.children, g.list, g.numbered);
        assert forall|i: int| 0 <= i < out.len() implies !(#[trigger] out[i] is Item) by {
            if g.list.len() > 0 && i == out.len() - 1 {
            } else {
                assert(out[i] == g.children[i]);
                if i < g0.children.len() {
                    assert(g.children[i] == g0.children[i] || g.children[i] == f0[i]);
                } else {
                    assert(g.children[i] == f0[i] || g.children[i] == lowering(s.last(), env, g0.bib).ir);
                }
            }
        }
    }
}

} // verus!
