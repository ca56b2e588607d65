//! The pre-pass that collects the labels a document defines, so that
//! lowering can tell a cross-reference from a citation.
use vstd::prelude::*;

use crate::strings::{lemma_views_push, string_of, views};
use crate::typst2latex::lower::{FootnoteBody, Node, StackChild, TableChild, TableItem, Value};

verus! {

/// The labels defined in `n`, in document order (a label before the labels
/// inside the element it is attached to). Every child element is searched,
/// including the content inside metadata values.
pub open spec fn labels_of(n: Node) -> Seq<Seq<char>>
    decreases n,
{
    match n {
        Node::Labelled(inner, key) => seq![key@] + labels_of(*inner),
        Node::Sequence(children) => labels_among(children@),
        Node::Styled { child, .. } => labels_of(*child),
        Node::Heading { body, .. } => labels_of(*body),
        Node::ListItem(b) => labels_of(*b),
        Node::EnumItem(b) => labels_of(*b),
        Node::TermItem(b) => labels_of(*b),
        Node::Block(Some(b)) => labels_of(*b),
        Node::Rect(Some(b)) => labels_of(*b),
        Node::Link(b) => labels_of(*b),
        Node::Boxed(Some(b)) => labels_of(*b),
        Node::Align(b) => labels_of(*b),
        Node::Stack(children) => labels_in_stack(children@),
        Node::Footnote(FootnoteBody::Content(b)) => labels_of(*b),
        Node::Strong(b) => labels_of(*b),
        Node::Emph(b) => labels_of(*b),
        Node::Figure { body, caption } => labels_of(*body) + match caption {
            Some(c) => labels_of(*c),
            None => Seq::empty(),
        },
        Node::Table { children, .. } => labels_in_table(children@),
        Node::Metadata { value, .. } => labels_in_value(value),
        _ => Seq::empty(),
    }
}

/// The labels defined in the elements `s`, in order.
pub open spec fn labels_among(s: Seq<Node>) -> Seq<Seq<char>>
    decreases s,
{
    if s.len() == 0 {
        Seq::empty()
    } else {
        labels_among(s.drop_last()) + labels_of(s.last())
    }
}

/// The labels defined in the block children of a stack.
pub open spec fn labels_in_stack(s: Seq<StackChild>) -> Seq<Seq<char>>
    decreases s,
{
    if s.len() == 0 {
        Seq::empty()
    } else {
        labels_in_stack(s.drop_last()) + match s.last() {
            StackChild::Block(c) => labels_of(c),
            StackChild::Spacing => Seq::empty(),
        }
    }
}

/// The labels defined in a table item.
pub open spec fn labels_in_item(item: TableItem) -> Seq<Seq<char>>
    decreases item,
{
    match item {
        TableItem::Cell(c) => labels_of(c),
        TableItem::Other => Seq::empty(),
    }
}

/// The labels defined in table items.
pub open spec fn labels_in_items(s: Seq<TableItem>) -> Seq<Seq<char>>
    decreases s,
{
    if s.len() == 0 {
        Seq::empty()
    } else {
        labels_in_items(s.drop_last()) + labels_in_item(s.last())
    }
}

/// The labels defined in the children of a table.
pub open spec fn labels_in_table(s: Seq<TableChild>) -> Seq<Seq<char>>
    decreases s,
{
    if s.len() == 0 {
        Seq::empty()
    } else {
        labels_in_table(s.drop_last()) + match s.last() {
            TableChild::Item(item) => labels_in_item(item),
            TableChild::Header(items) => labels_in_items(items@),
            TableChild::Footer(items) => labels_in_items(items@),
        }
    }
}

/// The labels defined in the content a value holds.
pub open spec fn labels_in_value(v: Value) -> Seq<Seq<char>>
    decreases v,
{
    match v {
        Value::Content(c) => labels_of(*c),
        Value::Array(vs) => labels_in_values(vs@),
        Value::Dict(entries) => labels_in_entries(entries@),
        _ => Seq::empty(),
    }
}

/// The labels defined in the content values hold.
pub open spec fn labels_in_values(s: Seq<Value>) -> Seq<Seq<char>>
    decreases s,
{
    if s.len() == 0 {
        Seq::empty()
    } else {
        labels_in_values(s.drop_last()) + labels_in_value(s.last())
    }
}

/// The labels defined in the content the values of dictionary entries hold.
pub open spec fn labels_in_entries(s: Seq<(String, Value)>) -> Seq<Seq<char>>
    decreases s,
{
    if s.len() == 0 {
        Seq::empty()
    } else {
        labels_in_entries(s.drop_last()) + labels_in_value(s.last().1)
    }
}

/// The elements directly inside `n`: its body, children, caption, the
/// blocks of a stack, the cells of a table and the content inside a
/// metadata value.
pub open spec fn child_nodes(n: Node) -> Seq<Node> {
    match n {
        Node::Labelled(inner, _) => seq![*inner],
        Node::Sequence(children) => children@,
        Node::Styled { child, .. } => seq![*child],
        Node::Heading { body, .. } => seq![*body],
        Node::ListItem(b) => seq![*b],
        Node::EnumItem(b) => seq![*b],
        Node::TermItem(b) => seq![*b],
        Node::Block(Some(b)) => seq![*b],
        Node::Rect(Some(b)) => seq![*b],
        Node::Link(b) => seq![*b],
        Node::Boxed(Some(b)) => seq![*b],
        Node::Align(b) => seq![*b],
        Node::Stack(children) => stack_nodes(children@),
        Node::Footnote(FootnoteBody::Content(b)) => seq![*b],
        Node::Strong(b) => seq![*b],
        Node::Emph(b) => seq![*b],
        Node::Figure { body, caption } => match caption {
            Some(c) => seq![*body, *c],
            None => seq![*body],
        },
        Node::Table { children, .. } => table_nodes(children@),
        Node::Metadata { value, .. } => value_nodes(value),
        _ => Seq::empty(),
    }
}

/// The blocks of a stack.
pub open spec fn stack_nodes(s: Seq<StackChild>) -> Seq<Node>
    decreases s.len(),
{
    if s.len() == 0 {
        Seq::empty()
    } else {
        stack_nodes(s.drop_last()) + match s.last() {
            StackChild::Block(c) => seq![c],
            StackChild::Spacing => Seq::empty(),
        }
    }
}

/// The cells among table items.
pub open spec fn item_nodes(s: Seq<TableItem>) -> Seq<Node>
    decreases s.len(),
{
    if s.len() == 0 {
        Seq::empty()
    } else {
        item_nodes(s.drop_last()) + match s.last() {
            TableItem::Cell(c) => seq![c],
            TableItem::Other => Seq::empty(),
        }
    }
}

/// The cells of a table, its header and footer included.
pub open spec fn table_nodes(s: Seq<TableChild>) -> Seq<Node>
    decreases s.len(),
{
    if s.len() == 0 {
        Seq::empty()
    } else {
        table_nodes(s.drop_last()) + match s.last() {
            TableChild::Item(item) => item_nodes(seq![item]),
            TableChild::Header(items) => item_nodes(items@),
            TableChild::Footer(items) => item_nodes(items@),
        }
    }
}

/// The content a value holds, inside arrays and dictionaries too.
pub open spec fn value_nodes(v: Value) -> Seq<Node>
    decreases v,
{
    match v {
        Value::Content(c) => seq![*c],
        Value::Array(vs) => values_nodes(vs@),
        Value::Dict(entries) => entries_nodes(entries@),
        _ => Seq::empty(),
    }
}

/// The content values hold.
pub open spec fn values_nodes(s: Seq<Value>) -> Seq<Node>
    decreases s,
{
    if s.len() == 0 {
        Seq::empty()
    } else {
        values_nodes(s.drop_last()) + value_nodes(s.last())
    }
}

/// The content the values of dictionary entries hold.
pub open spec fn entries_nodes(s: Seq<(String, Value)>) -> Seq<Node>
    decreases s,
{
    if s.len() == 0 {
        Seq::empty()
    } else {
        entries_nodes(s.drop_last()) + value_nodes(s.last().1)
    }
}

/// The label `k` is attached to `n` or to an element at most `depth - 1`
/// levels inside it.
pub open spec fn label_occurs(n: Node, k: Seq<char>, depth: nat) -> bool
    decreases depth, 0nat,
{
    depth > 0 && (labelled_with(n, k) || label_among(child_nodes(n), k, (depth - 1) as nat))
}

/// The label `k` occurs, within `depth` levels, in one of `s`.
pub open spec fn label_among(s: Seq<Node>, k: Seq<char>, depth: nat) -> bool
    decreases depth, s.len() + 1,
{
    s.len() > 0 && (label_among(s.drop_last(), k, depth) || label_occurs(s.last(), k, depth))
}

/// `n` carries the label `k`.
pub open spec fn labelled_with(n: Node, k: Seq<char>) -> bool {
    match n {
        Node::Labelled(_, key) => key@ == k,
        _ => false,
    }
}

/// Membership in a concatenation.
proof fn lemma_in_concat<A>(a: Seq<A>, b: Seq<A>, x: A)
    ensures
        (a + b).contains(x) <==> a.contains(x) || b.contains(x),
{
    if a.contains(x) {
        let i = choose|i: int| 0 <= i < a.len() && a[i] == x;
        assert((a + b)[i] == x);
    }
    if b.contains(x) {
        let i = choose|i: int| 0 <= i < b.len() && b[i] == x;
        assert((a + b)[a.len() + i] == x);
    }
    if (a + b).contains(x) {
        let i = choose|i: int| 0 <= i < (a + b).len() && (a + b)[i] == x;
        if i < a.len() {
            assert(a[i] == x);
        } else {
            assert(b[i - a.len()] == x);
        }
    }
}

/// A label of one of `s` is among the labels of `s`.
proof fn lemma_among(s: Seq<Node>, c: Node, x: Seq<char>)
    requires
        s.contains(c),
        labels_of(c).contains(x),
    ensures
        labels_among(s).contains(x),
    decreases s.len(),
{
    lemma_in_concat(s.drop_last(), seq![s.last()], c);
    assert(s =~= s.drop_last() + seq![s.last()]);
    if s.drop_last().contains(c) {
        lemma_among(s.drop_last(), c, x);
    }
    lemma_in_concat(labels_among(s.drop_last()), labels_of(s.last()), x);
}

/// A label of a block of a stack is among the stack's labels.
proof fn lemma_stack(s: Seq<StackChild>, c: Node, x: Seq<char>)
    requires
        stack_nodes(s).contains(c),
        labels_of(c).contains(x),
    ensures
        labels_in_stack(s).contains(x),
    decreases s.len(),
{
    let tail = match s.last() {
        StackChild::Block(b) => seq![b],
        StackChild::Spacing => Seq::<Node>::empty(),
    };
    lemma_in_concat(stack_nodes(s.drop_last()), tail, c);
    if stack_nodes(s.drop_last()).contains(c) {
        lemma_stack(s.drop_last(), c, x);
    }
    let ltail = match s.last() {
        StackChild::Block(b) => labels_of(b),
        StackChild::Spacing => Seq::<Seq<char>>::empty(),
    };
    lemma_in_concat(labels_in_stack(s.drop_last()), ltail, x);
}

/// A label of a cell among table items is among the items' labels.
proof fn lemma_items(s: Seq<TableItem>, c: Node, x: Seq<char>)
    requires
        item_nodes(s).contains(c),
        labels_of(c).contains(x),
    ensures
        labels_in_items(s).contains(x),
    decreases s.len(),
{
    let tail = match s.last() {
        TableItem::Cell(b) => seq![b],
        TableItem::Other => Seq::<Node>::empty(),
    };
    lemma_in_concat(item_nodes(s.drop_last()), tail, c);
    if item_nodes(s.drop_last()).contains(c) {
        lemma_items(s.drop_last(), c, x);
    }
    lemma_in_concat(labels_in_items(s.drop_last()), labels_in_item(s.last()), x);
}

/// A label of a cell of a table is among the table's labels.
proof fn lemma_table(s: Seq<TableChild>, c: Node, x: Seq<char>)
    requires
        table_nodes(s).contains(c),
        labels_of(c).contains(x),
    ensures
        labels_in_table(s).contains(x),
    decreases s.len(),
{
    let tail = match s.last() {
        TableChild::Item(item) => item_nodes(seq![item]),
        TableChild::Header(items) => item_nodes(items@),
        TableChild::Footer(items) => item_nodes(items@),
    };
    let ltail = match s.last() {
        TableChild::Item(item) => labels_in_item(item),
        TableChild::Header(items) => labels_in_items(items@),
        TableChild::Footer(items) => labels_in_items(items@),
    };
    lemma_in_concat(table_nodes(s.drop_last()), tail, c);
    if table_nodes(s.drop_last()).contains(c) {
        lemma_table(s.drop_last(), c, x);
    } else {
        match s.last() {
            TableChild::Item(item) => {
                lemma_items(seq![item], c, x);
                assert(seq![item].drop_last() =~= Seq::<TableItem>::empty());
                assert(seq![item].last() == item);
                assert(labels_in_items(Seq::<TableItem>::empty()) == Seq::<Seq<char>>::empty());
                assert(labels_in_items(seq![item]) =~= labels_in_item(item));
            },
            TableChild::Header(items) => lemma_items(items@, c, x),
            TableChild::Footer(items) => lemma_items(items@, c, x),
        }
    }
    lemma_in_concat(labels_in_table(s.drop_last()), ltail, x);
}

/// A label of content a value holds is among the value's labels.
proof fn lemma_value(v: Value, c: Node, x: Seq<char>)
    requires
        value_nodes(v).contains(c),
        labels_of(c).contains(x),
    ensures
        labels_in_value(v).contains(x),
    decreases v,
{
    match v {
        Value::Content(b) => {
            assert(seq![*b][0] == *b);
        },
        Value::Array(vs) => lemma_values(vs@, c, x),
        Value::Dict(entries) => lemma_entries(entries@, c, x),
        _ => {},
    }
}

/// A label of content values hold is among their labels.
proof fn lemma_values(s: Seq<Value>, c: Node, x: Seq<char>)
    requires
        values_nodes(s).contains(c),
        labels_of(c).contains(x),
    ensures
        labels_in_values(s).contains(x),
    decreases s,
{
    lemma_in_concat(values_nodes(s.drop_last()), value_nodes(s.last()), c);
    if values_nodes(s.drop_last()).contains(c) {
        lemma_values(s.drop_last(), c, x);
    } else {
        lemma_value(s.last(), c, x);
    }
    lemma_in_concat(labels_in_values(s.drop_last()), labels_in_value(s.last()), x);
}

/// A label of content dictionary values hold is among their labels.
proof fn lemma_entries(s: Seq<(String, Value)>, c: Node, x: Seq<char>)
    requires
        entries_nodes(s).contains(c),
        labels_of(c).contains(x),
    ensures
        labels_in_entries(s).contains(x),
    decreases s,
{
    lemma_in_concat(entries_nodes(s.drop_last()), value_nodes(s.last().1), c);
    if entries_nodes(s.drop_last()).contains(c) {
        lemma_entries(s.drop_last(), c, x);
    } else {
        lemma_value(s.last().1, c, x);
    }
    lemma_in_concat(labels_in_entries(s.drop_last()), labels_in_value(s.last().1), x);
}

/// The labels of an element inside `n` are labels of `n`.
proof fn lemma_child_labels(n: Node, c: Node, x: Seq<char>)
    requires
        child_nodes(n).contains(c),
        labels_of(c).contains(x),
    ensures
        labels_of(n).contains(x),
{
    match n {
        Node::Labelled(inner, key) => {
            lemma_in_concat(seq![key@], labels_of(*inner), x);
        },
        Node::Sequence(children) => lemma_among(children@, c, x),
        Node::Stack(children) => lemma_stack(children@, c, x),
        Node::Figure { body, caption } => match caption {
            Some(cap) => {
                lemma_in_concat(labels_of(*body), labels_of(*cap), x);
            },
            None => {
                lemma_in_concat(labels_of(*body), Seq::empty(), x);
            },
        },
        Node::Table { children, .. } => lemma_table(children@, c, x),
        Node::Metadata { value, .. } => lemma_value(value, c, x),
        _ => {},
    }
}

/// The pre-pass misses no label: a label attached to any element of a
/// document, however deep (under styles, in sequences, bodies, captions,
/// stack blocks, table cells or metadata content), is among the labels it
/// collects.
pub proof fn law_every_label_collected(n: Node, k: Seq<char>, depth: nat)
    requires
        label_occurs(n, k, depth),
    ensures
        labels_of(n).contains(k),
    decreases depth, 0nat,
{
    if labelled_with(n, k) {
        if let Node::Labelled(inner, key) = n {
            assert((seq![key@] + labels_of(*inner))[0] == k);
        }
    } else {
        let c = lemma_label_among(child_nodes(n), k, (depth - 1) as nat);
        lemma_child_labels(n, c, k);
    }
}

/// A label found among `s` is a label of one of them.
proof fn lemma_label_among(s: Seq<Node>, k: Seq<char>, depth: nat) -> (c: Node)
    requires
        label_among(s, k, depth),
    ensures
        s.contains(c),
        labels_of(c).contains(k),
    decreases depth, s.len() + 1,
{
    if label_among(s.drop_last(), k, depth) {
        let c = lemma_label_among(s.drop_last(), k, depth);
        let i = choose|i: int| 0 <= i < s.drop_last().len() && s.drop_last()[i] == c;
        assert(s[i] == c);
        c
    } else {
        law_every_label_collected(s.last(), k, depth);
        assert(s[s.len() - 1] == s.last());
        s.last()
    }
}

/// The labels a document defines, in document order.
pub fn collect_labels(content: &Node) -> (res: Vec<String>)
    ensures
        views(res@) == labels_of(*content),
{
    let mut out: Vec<String> = Vec::new();
    assert(views(out@) =~= Seq::<Seq<char>>::empty());
    labels_into(content, &mut out);
    assert(views(out@) =~= labels_of(*content));
    out
}

/// Append the labels defined in `n`.
fn labels_into(n: &Node, out: &mut Vec<String>)
    ensures
        views(final(out)@) =~= views(old(out)@) + labels_of(*n),
    decreases n, 1int,
{
    match n {
        Node::Labelled(inner, key) => {
            let ghost before = out@;
            let k = string_of(key.as_str());
            out.push(k);
            proof {
                lemma_views_push(before, k);
            }
            labels_into(inner, out);
        },
        Node::Sequence(children) => labels_into_among(children, out),
        Node::Styled { child, .. } => labels_into(child, out),
        Node::Heading { body, .. } => labels_into(body, out),
        Node::ListItem(b) => labels_into(b, out),
        Node::EnumItem(b) => labels_into(b, out),
        Node::TermItem(b) => labels_into(b, out),
        Node::Block(Some(b)) => labels_into(b, out),
        Node::Rect(Some(b)) => labels_into(b, out),
        Node::Link(b) => labels_into(b, out),
        Node::Boxed(Some(b)) => labels_into(b, out),
        Node::Align(b) => labels_into(b, out),
        Node::Stack(children) => labels_into_stack(children, out),
        Node::Footnote(FootnoteBody::Content(b)) => labels_into(b, out),
        Node::Strong(b) => labels_into(b, out),
        Node::Emph(b) => labels_into(b, out),
        Node::Figure { body, caption } => {
            labels_into(body, out);
            match caption {
                Some(c) => labels_into(c, out),
                None => {},
            }
        },
        Node::Table { children, .. } => labels_into_table(children, out),
        Node::Metadata { value, .. } => labels_into_value(value, out),
        _ => {},
    }
}

/// Append the labels defined in the elements `children`.
fn labels_into_among(children: &Vec<Node>, out: &mut Vec<String>)
    ensures
        views(final(out)@) =~= views(old(out)@) + labels_among(children@),
    decreases children, 0int,
{
    let mut i: usize = 0;
    assert(children@.take(0) =~= Seq::<Node>::empty());
    while i < children.len()
        invariant
            i <= children@.len(),
            views(out@) =~= views(old(out)@) + labels_among(children@.take(i as int)),
        decreases children@.len() - i,
    {
        assert(children@.take(i + 1).drop_last() =~= children@.take(i as int));
        assert(decreases_to!(children => children@[i as int]));
        labels_into(&children[i], out);
        i = i + 1;
    }
    assert(children@.take(children@.len() as int) =~= children@);
}

/// Append the labels defined in the block children of a stack.
fn labels_into_stack(children: &Vec<StackChild>, out: &mut Vec<String>)
    ensures
        views(final(out)@) =~= views(old(out)@) + labels_in_stack(children@),
    decreases children, 0int,
{
    let mut i: usize = 0;
    assert(children@.take(0) =~= Seq::<StackChild>::empty());
    while i < children.len()
        invariant
            i <= children@.len(),
            views(out@) =~= views(old(out)@) + labels_in_stack(children@.take(i as int)),
        decreases children@.len() - i,
    {
        assert(children@.take(i + 1).drop_last() =~= children@.take(i as int));
        assert(decreases_to!(children => children@[i as int]));
        match &children[i] {
            StackChild::Block(c) => labels_into(c, out),
            StackChild::Spacing => {},
        }
        i = i + 1;
    }
    assert(children@.take(children@.len() as int) =~= children@);
}

/// Append the labels defined in a table item.
fn labels_into_item(item: &TableItem, out: &mut Vec<String>)
    ensures
        views(final(out)@) =~= views(old(out)@) + labels_in_item(*item),
    decreases item, 0int,
{
    match item {
        TableItem::Cell(c) => labels_into(c, out),
        TableItem::Other => {},
    }
}

/// Append the labels defined in table items.
fn labels_into_items(items: &Vec<TableItem>, out: &mut Vec<String>)
    ensures
        views(final(out)@) =~= views(old(out)@) + labels_in_items(items@),
    decreases items, 1int,
{
    let mut i: usize = 0;
    assert(items@.take(0) =~= Seq::<TableItem>::empty());
    while i < items.len()
        invariant
            i <= items@.len(),
            views(out@) =~= views(old(out)@) + labels_in_items(items@.take(i as int)),
        decreases items@.len() - i,
    {
        assert(items@.take(i + 1).drop_last() =~= items@.take(i as int));
        assert(decreases_to!(items => items@[i as int]));
        labels_into_item(&items[i], out);
        i = i + 1;
    }
    assert(items@.take(items@.len() as int) =~= items@);
}

/// Append the labels defined in the children of a table.
fn labels_into_table(children: &Vec<TableChild>, out: &mut Vec<String>)
    ensures
        views(final(out)@) =~= views(old(out)@) + labels_in_table(children@),
    decreases children, 2int,
{
    let mut i: usize = 0;
    assert(children@.take(0) =~= Seq::<TableChild>::empty());
    while i < children.len()
        invariant
            i <= children@.len(),
            views(out@) =~= views(old(out)@) + labels_in_table(children@.take(i as int)),
        decreases children@.len() - i,
    {
        assert(children@.take(i + 1).drop_last() =~= children@.take(i as int));
        assert(decreases_to!(children => children@[i as int]));
        match &children[i] {
            TableChild::Item(item) => labels_into_item(item, out),
            TableChild::Header(items) => labels_into_items(items, out),
            TableChild::Footer(items) => labels_into_items(items, out),
        }
        i = i + 1;
    }
    assert(children@.take(children@.len() as int) =~= children@);
}

/// Append the labels defined in the content a value holds.
fn labels_into_value(v: &Value, out: &mut Vec<String>)
    ensures
        views(final(out)@) =~= views(old(out)@) + labels_in_value(*v),
    decreases v, 1int,
{
    match v {
        Value::Content(c) => labels_into(c, out),
        Value::Array(vs) => labels_into_values(vs, out),
        Value::Dict(entries) => labels_into_entries(entries, out),
        _ => {},
    }
}

/// Append the labels defined in the content values hold.
fn labels_into_values(values: &Vec<Value>, out: &mut Vec<String>)
    ensures
        views(final(out)@) =~= views(old(out)@) + labels_in_values(values@),
    decreases values, 0int,
{
    let mut i: usize = 0;
    assert(values@.take(0) =~= Seq::<Value>::empty());
    while i < values.len()
        invariant
            i <= values@.len(),
            views(out@) =~= views(old(out)@) + labels_in_values(values@.take(i as int)),
        decreases values@.len() - i,
    {
        assert(values@.take(i + 1).drop_last() =~= values@.take(i as int));
        assert(decreases_to!(values => values@[i as int]));
        labels_into_value(&values[i], out);
        i = i + 1;
    }
    assert(values@.take(values@.len() as int) =~= values@);
}

/// Append the labels defined in the content the values of dictionary
/// entries hold.
fn labels_into_entries(entries: &Vec<(String, Value)>, out: &mut Vec<String>)
    ensures
        views(final(out)@) =~= views(old(out)@) + labels_in_entries(entries@),
    decreases entries, 0int,
{
    let mut i: usize = 0;
    assert(entries@.take(0) =~= Seq::<(String, Value)>::empty());
    while i < entries.len()
        invariant
            i <= entries@.len(),
            views(out@) =~= views(old(out)@) + labels_in_entries(entries@.take(i as int)),
        decreases entries@.len() - i,
    {
        assert(entries@.take(i + 1).drop_last() =~= entries@.take(i as int));
        assert(decreases_to!(entries => entries@[i as int]));
        assert(decreases_to!(entries@[i as int] => entries@[i as int].1));
        labels_into_value(&entries[i].1, out);
        i = i + 1;
    }
    assert(entries@.take(entries@.len() as int) =~= entries@);
}

} // verus!
