//! The theorem environments a document uses, for their `\newtheorem`
//! declarations in the preamble.
use vstd::prelude::*;

use crate::strings::{chars_of, contains_sub, contains_str, lemma_views_push, lemma_views_take, push_char, string_of, views};
use crate::typst2latex::lower::{add_resources, law_resources_unique};
use crate::typst2latex::markers::{lemma_contains_extend, lemma_contains_self};
use crate::typst2latex::ir::{LatexIr, LatexTree, tree, tree_rows, trees};

verus! {

/// The kinds of the theorem environments in `t`, in document order (an
/// environment before those inside its title and body).
pub open spec fn theorem_kinds(t: LatexTree) -> Seq<Seq<char>>
    decreases t,
{
    match t {
        LatexTree::Document(children) => kinds_seq(children),
        LatexTree::Sequence(children) => kinds_seq(children),
        LatexTree::Heading { content, .. } => theorem_kinds(*content),
        LatexTree::Item(content) => theorem_kinds(*content),
        LatexTree::List(items) => kinds_seq(items),
        LatexTree::NumberedList(items) => kinds_seq(items),
        LatexTree::Link(_, Some(d)) => theorem_kinds(*d),
        LatexTree::InferenceRule { premises, conclusion } => kinds_seq(premises) + theorem_kinds(*conclusion),
        LatexTree::RuleGroup(rules) => kinds_seq(rules),
        LatexTree::Block(content) => theorem_kinds(*content),
        LatexTree::Strong(content) => theorem_kinds(*content),
        LatexTree::Emph(content) => theorem_kinds(*content),
        LatexTree::Figure { body, caption } => theorem_kinds(*body) + match caption {
            Some(c) => theorem_kinds(*c),
            None => Seq::empty(),
        },
        LatexTree::Table { rows, .. } => kinds_rows(rows),
        LatexTree::Footnote(content) => theorem_kinds(*content),
        LatexTree::TheoremEnv { env, title, body } => seq![env] + match title {
            Some(t) => theorem_kinds(*t),
            None => Seq::empty(),
        } + theorem_kinds(*body),
        _ => Seq::empty(),
    }
}

/// The theorem kinds in `s`, in order.
pub open spec fn kinds_seq(s: Seq<LatexTree>) -> Seq<Seq<char>>
    decreases s,
{
    if s.len() == 0 {
        Seq::empty()
    } else {
        kinds_seq(s.drop_last()) + theorem_kinds(s.last())
    }
}

/// The theorem kinds in the rows of a table, in order.
pub open spec fn kinds_rows(rows: Seq<Seq<LatexTree>>) -> Seq<Seq<char>>
    decreases rows,
{
    if rows.len() == 0 {
        Seq::empty()
    } else {
        kinds_rows(rows.drop_last()) + kinds_seq(rows.last())
    }
}

/// The kinds of the theorem environments in `ir`, in document order.
pub fn collect_theorem_kinds(ir: &LatexIr) -> (res: Vec<String>)
    ensures
        views(res@) == theorem_kinds(ir@),
{
    let mut out: Vec<String> = Vec::new();
    assert(views(out@) =~= Seq::<Seq<char>>::empty());
    kinds_into(ir, &mut out);
    assert(views(out@) =~= theorem_kinds(ir@));
    out
}

fn kinds_into_opt(ir: &Option<Box<LatexIr>>, out: &mut Vec<String>)
    ensures
        views(final(out)@) =~= views(old(out)@) + match *ir {
            Some(t) => theorem_kinds(tree(*t)),
            None => Seq::empty(),
        },
    decreases ir, 0int,
{
    match ir {
        Some(t) => kinds_into(t, out),
        None => {},
    }
}

/// Append the theorem kinds in `ir`.
fn kinds_into(ir: &LatexIr, out: &mut Vec<String>)
    ensures
        views(final(out)@) =~= views(old(out)@) + theorem_kinds(ir@),
    decreases ir, 1int,
{
    match ir {
        LatexIr::Document(children) => kinds_into_seq(children, out),
        LatexIr::Sequence(children) => kinds_into_seq(children, out),
        LatexIr::Heading { content, .. } => kinds_into(content, out),
        LatexIr::Item(content) => kinds_into(content, out),
        LatexIr::List(items) => kinds_into_seq(items, out),
        LatexIr::NumberedList(items) => kinds_into_seq(items, out),
        LatexIr::Link(_, d) => kinds_into_opt(d, out),
        LatexIr::InferenceRule { premises, conclusion } => {
            kinds_into_seq(premises, out);
            kinds_into(conclusion, out);
        },
        LatexIr::RuleGroup(rules) => kinds_into_seq(rules, out),
        LatexIr::Block(content) => kinds_into(content, out),
        LatexIr::Strong(content) => kinds_into(content, out),
        LatexIr::Emph(content) => kinds_into(content, out),
        LatexIr::Figure { body, caption } => {
            kinds_into(body, out);
            kinds_into_opt(caption, out);
        },
        LatexIr::Table { rows, .. } => kinds_into_rows(rows, out),
        LatexIr::Footnote(content) => kinds_into(content, out),
        LatexIr::TheoremEnv { env, title, body } => {
            let ghost before = out@;
            let k = string_of(env.as_str());
            out.push(k);
            proof {
                lemma_views_push(before, k);
            }
            kinds_into_opt(title, out);
            kinds_into(body, out);
        },
        _ => {},
    }
}

/// Append the theorem kinds in `items`.
fn kinds_into_seq(items: &Vec<LatexIr>, out: &mut Vec<String>)
    ensures
        views(final(out)@) =~= views(old(out)@) + kinds_seq(trees(items@)),
    decreases items, 0int,
{
    let mut i: usize = 0;
    assert(trees(items@.take(0)) =~= Seq::<LatexTree>::empty());
    while i < items.len()
        invariant
            i <= items@.len(),
            views(out@) =~= views(old(out)@) + kinds_seq(trees(items@.take(i as int))),
        decreases items@.len() - i,
    {
        assert(items@.take(i + 1).drop_last() =~= items@.take(i as int));
        assert(trees(items@.take(i + 1)).drop_last() =~= trees(items@.take(i as int)));
        assert(decreases_to!(items => items@[i as int]));
        kinds_into(&items[i], out);
        i = i + 1;
    }
    assert(items@.take(items@.len() as int) =~= items@);
}

/// Append the theorem kinds in the rows of a table.
fn kinds_into_rows(rows: &Vec<Vec<LatexIr>>, out: &mut Vec<String>)
    ensures
        views(final(out)@) =~= views(old(out)@) + kinds_rows(tree_rows(rows@)),
    decreases rows, 1int,
{
    let mut i: usize = 0;
    assert(tree_rows(rows@.take(0)) =~= Seq::<Seq<LatexTree>>::empty());
    while i < rows.len()
        invariant
            i <= rows@.len(),
            views(out@) =~= views(old(out)@) + kinds_rows(tree_rows(rows@.take(i as int))),
        decreases rows@.len() - i,
    {
        assert(rows@.take(i + 1).drop_last() =~= rows@.take(i as int));
        assert(tree_rows(rows@.take(i + 1)).drop_last() =~= tree_rows(rows@.take(i as int)));
        assert(decreases_to!(rows => rows@[i as int]));
        kinds_into_seq(&rows[i], out);
        i = i + 1;
    }
    assert(rows@.take(rows@.len() as int) =~= rows@);
}

/// The upper-case form of an ASCII lower-case letter.
pub open spec fn ascii_upper(c: char) -> char {
    ((c as u32) - 32) as char
}

/// `k` with its first character upper-cased when that is an ASCII
/// lower-case letter.
pub open spec fn capitalized(k: Seq<char>) -> Seq<char> {
    if k.len() > 0 && 'a' <= k[0] && k[0] <= 'z' {
        seq![ascii_upper(k[0])] + k.drop_first()
    } else {
        k
    }
}

/// The declaration of one theorem environment: `\newtheorem{kind}{Kind}`.
pub open spec fn declaration(k: Seq<char>) -> Seq<char> {
    "\\newtheorem{"@ + k + "}{"@ + capitalized(k) + "}\n"@
}

/// The declarations of `ks`, one after the other.
pub open spec fn declarations(ks: Seq<Seq<char>>) -> Seq<char>
    decreases ks.len(),
{
    if ks.len() == 0 {
        Seq::empty()
    } else {
        declarations(ks.drop_last()) + declaration(ks.last())
    }
}

/// The preamble's theorem setup for environments of the kinds `kinds`: one
/// declaration per distinct kind, in the order of first use.
pub open spec fn theorem_setup(kinds: Seq<Seq<char>>) -> Seq<char> {
    declarations(add_resources(Seq::empty(), kinds))
}

fn upper_ascii(c: char) -> (res: char)
    requires
        'a' <= c <= 'z',
    ensures
        res == ascii_upper(c),
{
    let b: u8 = (c as u8) - 32;
    b as char
}

/// Append the declaration of one theorem environment.
fn push_declaration(out: &mut String, k: &str)
    ensures
        final(out)@ == old(out)@ + declaration(k@),
{
    out.append("\\newtheorem{");
    out.append(k);
    out.append("}{");
    let cs = chars_of(k);
    let ghost head = out@;
    let mut i: usize = 0;
    if cs.len() > 0 && 'a' <= cs[0] && cs[0] <= 'z' {
        push_char(out, upper_ascii(cs[0]));
        i = 1;
    }
    let ghost start = i;
    let ghost first = out@.subrange(head.len() as int, out@.len() as int);
    assert(first + k@.subrange(start as int, k@.len() as int) =~= capitalized(k@));
    while i < cs.len()
        invariant
            start <= i <= cs@.len(),
            cs@ == k@,
            out@ == head + first + k@.subrange(start as int, i as int),
        decreases cs@.len() - i,
    {
        push_char(out, cs[i]);
        assert(k@.subrange(start as int, i + 1) =~= k@.subrange(start as int, i as int).push(cs@[i as int]));
        i = i + 1;
    }
    out.append("}\n");
    assert(out@ =~= old(out)@ + declaration(k@));
}

/// Append the theorem setup for environments of the kinds `kinds`.
pub fn push_theorem_setup(out: &mut String, kinds: &Vec<String>)
    ensures
        final(out)@ == old(out)@ + theorem_setup(views(kinds@)),
{
    let mut distinct: Vec<String> = Vec::new();
    let mut i: usize = 0;
    assert(views(distinct@) =~= Seq::<Seq<char>>::empty());
    while i < kinds.len()
        invariant
            i <= kinds@.len(),
            views(distinct@) == add_resources(Seq::empty(), views(kinds@.take(i as int))),
        decreases kinds@.len() - i,
    {
        proof {
            lemma_views_take(kinds@, i as int);
            assert(views(kinds@.take(i + 1)).drop_last() =~= views(kinds@.take(i as int)));
        }
        if !contains_str(&distinct, kinds[i].as_str()) {
            let ghost before = distinct@;
            let c = string_of(kinds[i].as_str());
            distinct.push(c);
            proof {
                lemma_views_push(before, c);
            }
        }
        i = i + 1;
    }
    assert(kinds@.take(kinds@.len() as int) =~= kinds@);
    let mut j: usize = 0;
    let ghost head = out@;
    assert(views(distinct@.take(0)) =~= Seq::<Seq<char>>::empty());
    while j < distinct.len()
        invariant
            j <= distinct@.len(),
            out@ == head + declarations(views(distinct@.take(j as int))),
        decreases distinct@.len() - j,
    {
        proof {
            lemma_views_take(distinct@, j as int);
            assert(views(distinct@.take(j + 1)).drop_last() =~= views(distinct@.take(j as int)));
        }
        push_declaration(out, distinct[j].as_str());
        j = j + 1;
    }
    assert(distinct@.take(distinct@.len() as int) =~= distinct@);
}

/// The declarations of `ks` hold that of each kind in `ks`.
pub proof fn lemma_declarations_contain(ks: Seq<Seq<char>>, k: Seq<char>)
    requires
        ks.contains(k),
    ensures
        contains_sub(declarations(ks), declaration(k)),
    decreases ks.len(),
{
    let d = declaration(k);
    if ks.last() == k {
        lemma_contains_self(d);
        lemma_contains_extend(declarations(ks.drop_last()), d, Seq::empty(), d);
        assert(declarations(ks.drop_last()) + d + Seq::<char>::empty() =~= declarations(ks));
    } else {
        let i = choose|i: int| 0 <= i < ks.len() && ks[i] == k;
        assert(ks.drop_last()[i] == k);
        lemma_declarations_contain(ks.drop_last(), k);
        lemma_contains_extend(Seq::empty(), declarations(ks.drop_last()), declaration(ks.last()), d);
        assert(Seq::<char>::empty() + declarations(ks.drop_last()) + declaration(ks.last()) =~= declarations(ks));
    }
}

/// The theorem setup declares every kind among `kinds`.
pub proof fn lemma_setup_declares(kinds: Seq<Seq<char>>, k: Seq<char>)
    requires
        kinds.contains(k),
    ensures
        contains_sub(theorem_setup(kinds), declaration(k)),
{
    law_resources_unique(Seq::empty(), kinds);
    lemma_declarations_contain(add_resources(Seq::empty(), kinds), k);
}

} // verus!
