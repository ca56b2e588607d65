//! Which endpoints the edges of a coordinate-style fletcher diagram join.
//!
//! The diagram's objects come in document order. An edge names its start by
//! a coordinate of its own or by a node's name, and its end by a coordinate,
//! a name, or a direction stepped from its start; an edge that gives neither
//! end nor direction joins the nearest node before it to the nearest node
//! after it. A name refers to the last node that carries it. An edge whose
//! ends cannot be found this way is dropped. The coordinates themselves are
//! not looked at here.
use vstd::prelude::*;

use crate::strings::str_eq;
use crate::typst2latex::context::opt_view;

verus! {

/// An object of a coordinate-style diagram, as far as choosing edge ends
/// goes.
pub enum GridItem {
    /// A node, with its name if it has one.
    Node { name: Option<String> },
    /// An edge: whether it gives its own start and end coordinates, the
    /// names it gives for them, and whether it gives a direction.
    Edge { from: bool, from_name: Option<String>, to: bool, to_name: Option<String>, dir: bool },
}

/// Where an edge starts.
#[derive(Debug, Clone, Copy, PartialEq, Eq, Structural)]
pub enum Start {
    /// At the edge's own start coordinate.
    Given,
    /// At the node at this position among the objects.
    Node(usize),
}

/// Where an edge ends.
#[derive(Debug, Clone, Copy, PartialEq, Eq, Structural)]
pub enum End {
    /// At the edge's own end coordinate.
    Given,
    /// At the node at this position among the objects.
    Node(usize),
    /// One grid step per letter of the edge's direction from its start.
    Step,
}

/// The position of the last node before position `k` named `name`.
pub open spec fn named_before(items: Seq<GridItem>, name: Seq<char>, k: nat) -> Option<usize>
    decreases k,
{
    if k == 0 || k > items.len() {
        None
    } else {
        match items[k - 1] {
            GridItem::Node { name: Some(n) } if n@ == name => Some((k - 1) as usize),
            _ => named_before(items, name, (k - 1) as nat),
        }
    }
}

/// The position of the last node named `name`, if any.
pub open spec fn named(items: Seq<GridItem>, name: Seq<char>) -> Option<usize> {
    named_before(items, name, items.len())
}

/// The position of the nearest node before position `k`.
pub open spec fn node_before(items: Seq<GridItem>, k: nat) -> Option<usize>
    decreases k,
{
    if k == 0 || k > items.len() {
        None
    } else if items[k - 1] is Node {
        Some((k - 1) as usize)
    } else {
        node_before(items, (k - 1) as nat)
    }
}

/// The position of the nearest node at or after position `k`.
pub open spec fn node_from(items: Seq<GridItem>, k: nat) -> Option<usize>
    decreases items.len() - k,
{
    if k >= items.len() {
        None
    } else if items[k as int] is Node {
        Some(k as usize)
    } else {
        node_from(items, k + 1)
    }
}

/// The node a name refers to, as a start.
pub open spec fn start_named(items: Seq<GridItem>, name: Option<Seq<char>>) -> Option<Start> {
    match name {
        Some(n) => match named(items, n) {
            Some(j) => Some(Start::Node(j)),
            None => None,
        },
        None => None,
    }
}

/// The node a name refers to, as an end.
pub open spec fn end_named(items: Seq<GridItem>, name: Option<Seq<char>>) -> Option<End> {
    match name {
        Some(n) => match named(items, n) {
            Some(j) => Some(End::Node(j)),
            None => None,
        },
        None => None,
    }
}

/// The ends of the object at position `i`: none for a node, and none for an
/// edge whose ends cannot be found.
pub open spec fn edge_ends(items: Seq<GridItem>, i: int) -> Option<(Start, End)> {
    match items[i] {
        GridItem::Node { .. } => None,
        GridItem::Edge { from, from_name, to, to_name, dir } => {
            let start = if from {
                Some(Start::Given)
            } else {
                start_named(items, opt_view(from_name))
            };
            let end = if to {
                Some(End::Given)
            } else {
                end_named(items, opt_view(to_name))
            };
            match start {
                Some(s) => match end {
                    Some(e) => Some((s, e)),
                    None => if dir {
                        Some((s, End::Step))
                    } else {
                        None
                    },
                },
                None => if end is None && !dir {
                    match (node_before(items, i as nat), node_from(items, (i + 1) as nat)) {
                        (Some(a), Some(b)) => Some((Start::Node(a), End::Node(b))),
                        _ => None,
                    }
                } else {
                    None
                },
            }
        },
    }
}

/// `item` is a node named `name`.
pub open spec fn node_named(item: GridItem, name: Seq<char>) -> bool {
    match item {
        GridItem::Node { name: Some(n) } => n@ == name,
        _ => false,
    }
}

/// The nearest node before position `k`.
proof fn lemma_node_before(items: Seq<GridItem>, k: nat)
    requires
        k <= items.len() <= usize::MAX,
    ensures
        node_before(items, k) matches Some(a) ==> a < k && items[a as int] is Node && forall|j: int|
            a < j < k ==> !(#[trigger] items[j] is Node),
        node_before(items, k) is None ==> forall|j: int| 0 <= j < k ==> !(#[trigger] items[j] is Node),
    decreases k,
{
    if k > 0 {
        let m = (k - 1) as nat;
        lemma_node_before(items, m);
        if !(items[m as int] is Node) {
            assert(node_before(items, k) == node_before(items, m));
            if let Some(a) = node_before(items, m) {
                assert forall|j: int| a < j < k implies !(#[trigger] items[j] is Node) by {
                    if j < m {
                    }
                }
            } else {
                assert forall|j: int| 0 <= j < k implies !(#[trigger] items[j] is Node) by {
                    if j < m {
                    }
                }
            }
        }
    }
}

/// The nearest node at or after position `k`.
proof fn lemma_node_from(items: Seq<GridItem>, k: nat)
    requires
        items.len() <= usize::MAX,
    ensures
        node_from(items, k) matches Some(b) ==> k <= b < items.len() && items[b as int] is Node && forall|j: int|
            k <= j < b ==> !(#[trigger] items[j] is Node),
        node_from(items, k) is None ==> forall|j: int| k <= j < items.len() ==> !(#[trigger] items[j] is Node),
    decreases items.len() - k,
{
    if k < items.len() {
        lemma_node_from(items, k + 1);
        if !(items[k as int] is Node) {
            assert(node_from(items, k) == node_from(items, k + 1));
            if let Some(b) = node_from(items, k + 1) {
                assert forall|j: int| k <= j < b implies !(#[trigger] items[j] is Node) by {
                    if j > k {
                    }
                }
            } else {
                assert forall|j: int| k <= j < items.len() implies !(#[trigger] items[j] is Node) by {
                    if j > k {
                    }
                }
            }
        }
    }
}

/// The last node named `name` before position `k`.
proof fn lemma_named_before(items: Seq<GridItem>, name: Seq<char>, k: nat)
    requires
        k <= items.len() <= usize::MAX,
    ensures
        named_before(items, name, k) matches Some(a) ==> a < k && node_named(items[a as int], name) && forall|j: int|
            a < j < k ==> !node_named(#[trigger] items[j], name),
        named_before(items, name, k) is None ==> forall|j: int| 0 <= j < k ==> !node_named(#[trigger] items[j], name),
    decreases k,
{
    if k > 0 {
        let m = (k - 1) as nat;
        lemma_named_before(items, name, m);
        if !node_named(items[m as int], name) {
            assert(named_before(items, name, k) == named_before(items, name, m));
            if let Some(a) = named_before(items, name, m) {
                assert forall|j: int| a < j < k implies !node_named(#[trigger] items[j], name) by {
                    if j < m {
                    }
                }
            } else {
                assert forall|j: int| 0 <= j < k implies !node_named(#[trigger] items[j], name) by {
                    if j < m {
                    }
                }
            }
        }
    }
}

/// An edge that gives no start, no end and no direction joins its
/// neighbours: it starts at the nearest node before it and ends at the
/// nearest node after it (no node lies between them and the edge), and it
/// is dropped exactly when there is no node on one of its sides.
pub proof fn law_implicit_edge_neighbours(items: Seq<GridItem>, i: int)
    requires
        0 <= i < items.len() <= usize::MAX,
        items[i] matches GridItem::Edge { from, from_name, to, to_name, dir } && !from && from_name is None && !to
            && to_name is None && !dir,
    ensures
        edge_ends(items, i) matches Some((s, e)) ==> s matches Start::Node(a) && e matches End::Node(b) && {
            &&& a < i < b < items.len()
            &&& items[a as int] is Node && items[b as int] is Node
            &&& forall|j: int| a < j < i ==> !(#[trigger] items[j] is Node)
            &&& forall|j: int| i < j < b ==> !(#[trigger] items[j] is Node)
        },
        edge_ends(items, i) is None <==> (forall|j: int| 0 <= j < i ==> !(#[trigger] items[j] is Node)) || (forall|
            j: int,
        | i < j < items.len() ==> !(#[trigger] items[j] is Node)),
{
    lemma_node_before(items, i as nat);
    lemma_node_from(items, (i + 1) as nat);
    match node_before(items, i as nat) {
        Some(a) => assert(!forall|j: int| 0 <= j < i ==> !(#[trigger] items[j] is Node)) by {
            assert(items[a as int] is Node);
        },
        None => {},
    }
    match node_from(items, (i + 1) as nat) {
        Some(b) => assert(!forall|j: int| i < j < items.len() ==> !(#[trigger] items[j] is Node)) by {
            assert(items[b as int] is Node);
        },
        None => {},
    }
}

/// A name refers to the last node that carries it: the node found for
/// `name` is named `name` and no later node is, none is found only when no
/// node carries it, and a named start or end is that node.
pub proof fn law_names_refer_to_last_node(items: Seq<GridItem>, name: Seq<char>)
    requires
        items.len() <= usize::MAX,
    ensures
        named(items, name) matches Some(b) ==> b < items.len() && node_named(items[b as int], name) && forall|j: int|
            b < j < items.len() ==> !node_named(#[trigger] items[j], name),
        named(items, name) is None ==> forall|j: int| 0 <= j < items.len() ==> !node_named(#[trigger] items[j], name),
        start_named(items, Some(name)) == match named(items, name) {
            Some(b) => Some(Start::Node(b)),
            None => None::<Start>,
        },
        end_named(items, Some(name)) == match named(items, name) {
            Some(b) => Some(End::Node(b)),
            None => None::<End>,
        },
{
    lemma_named_before(items, name, items.len());
}

/// An edge keeps what it gives: its own coordinates are its ends, an edge
/// with a start but no end steps from that start along its direction (and
/// is dropped without one), an edge that gives no start (neither a
/// coordinate nor a name) but a direction or an end coordinate is dropped,
/// and the nodes an edge is joined to are nodes.
pub proof fn law_edge_end_sources(items: Seq<GridItem>, i: int)
    requires
        0 <= i < items.len() <= usize::MAX,
        items[i] is Edge,
    ensures
        items[i] matches GridItem::Edge { from, to, .. } && from && to ==> edge_ends(items, i) == Some(
            (Start::Given, End::Given),
        ),
        items[i] matches GridItem::Edge { from, to, to_name, dir, .. } && from && !to && to_name is None && dir
            ==> edge_ends(items, i) == Some((Start::Given, End::Step)),
        items[i] matches GridItem::Edge { from, to, to_name, dir, .. } && from && !to && to_name is None && !dir
            ==> edge_ends(items, i) is None,
        items[i] matches GridItem::Edge { from, from_name, dir, .. } && !from && from_name is None && dir
            ==> edge_ends(items, i) is None,
        items[i] matches GridItem::Edge { from, from_name, to, .. } && !from && from_name is None && to
            ==> edge_ends(items, i) is None,
        edge_ends(items, i) matches Some((s, e)) ==> (s matches Start::Node(a) ==> a < items.len() && items[a as int] is Node)
            && (e matches End::Node(b) ==> b < items.len() && items[b as int] is Node),
{
    lemma_node_before(items, i as nat);
    lemma_node_from(items, (i + 1) as nat);
    if let GridItem::Edge { from_name, to_name, .. } = items[i] {
        if let Some(n) = from_name {
            lemma_named_before(items, n@, items.len());
        }
        if let Some(n) = to_name {
            lemma_named_before(items, n@, items.len());
        }
    }
}

fn find_named(items: &Vec<GridItem>, name: &String) -> (res: Option<usize>)
    ensures
        res == named(items@, name@),
{
    let mut k: usize = items.len();
    while k > 0
        invariant
            k <= items@.len(),
            named(items@, name@) == named_before(items@, name@, k as nat),
        decreases k,
    {
        match &items[k - 1] {
            GridItem::Node { name: Some(n) } => {
                if str_eq(n.as_str(), name.as_str()) {
                    return Some(k - 1);
                }
            },
            _ => {},
        }
        k = k - 1;
    }
    None
}

fn find_before(items: &Vec<GridItem>, i: usize) -> (res: Option<usize>)
    requires
        i <= items@.len(),
    ensures
        res == node_before(items@, i as nat),
{
    let mut k: usize = i;
    while k > 0
        invariant
            k <= i,
            i <= items@.len(),
            node_before(items@, i as nat) == node_before(items@, k as nat),
        decreases k,
    {
        if let GridItem::Node { .. } = &items[k - 1] {
            return Some(k - 1);
        }
        k = k - 1;
    }
    None
}

fn find_from(items: &Vec<GridItem>, i: usize) -> (res: Option<usize>)
    ensures
        res == node_from(items@, i as nat),
{
    let mut k: usize = i;
    while k < items.len()
        invariant
            i <= k || k >= items@.len(),
            node_from(items@, i as nat) == node_from(items@, k as nat),
        decreases items@.len() - k,
    {
        if let GridItem::Node { .. } = &items[k] {
            return Some(k);
        }
        k = k + 1;
    }
    None
}

/// The ends of the object at position `i`.
fn ends_at(items: &Vec<GridItem>, i: usize) -> (res: Option<(Start, End)>)
    requires
        i < items@.len() <= usize::MAX,
    ensures
        res == edge_ends(items@, i as int),
{
    match &items[i] {
        GridItem::Node { .. } => None,
        GridItem::Edge { from, from_name, to, to_name, dir } => {
            let start = if *from {
                Some(Start::Given)
            } else {
                match from_name {
                    Some(n) => match find_named(items, n) {
                        Some(j) => Some(Start::Node(j)),
                        None => None,
                    },
                    None => None,
                }
            };
            let end = if *to {
                Some(End::Given)
            } else {
                match to_name {
                    Some(n) => match find_named(items, n) {
                        Some(j) => Some(End::Node(j)),
                        None => None,
                    },
                    None => None,
                }
            };
            match start {
                Some(s) => match end {
                    Some(e) => Some((s, e)),
                    None => if *dir {
                        Some((s, End::Step))
                    } else {
                        None
                    },
                },
                None => if end.is_none() && !*dir {
                    match (find_before(items, i), find_from(items, i + 1)) {
                        (Some(a), Some(b)) => Some((Start::Node(a), End::Node(b))),
                        _ => None,
                    }
                } else {
                    None
                },
            }
        },
    }
}

/// The ends of each object of a coordinate-style diagram, in order: none
/// for a node and for an edge whose ends cannot be found.
pub fn resolve_edge_ends(items: &Vec<GridItem>) -> (res: Vec<Option<(Start, End)>>)
    ensures
        res@.len() == items@.len(),
        forall|i: int| 0 <= i < items@.len() ==> #[trigger] res@[i] == edge_ends(items@, i),
{
    let mut res: Vec<Option<(Start, End)>> = Vec::new();
    let mut i: usize = 0;
    while i < items.len()
        invariant
            i <= items@.len(),
            res@.len() == i,
            forall|k: int| 0 <= k < i ==> #[trigger] res@[k] == edge_ends(items@, k),
        decreases items@.len() - i,
    {
        let e = ends_at(items, i);
        res.push(e);
        i = i + 1;
    }
    res
}

} // verus!
