//! Page settings of a document, read off the style sets of its top-level
//! styled elements for the LaTeX preamble.
use vstd::prelude::*;

use crate::strings::string_of;
use crate::typst2latex::context::opt_view;
use crate::typst2latex::lower::{Node, PageStyle};

verus! {

/// The page numbering of `n`: that of the first styled element (found
/// through sequences, not inside a styled element) whose style set gives one.
pub open spec fn page_numbering_of(n: Node) -> Option<Seq<char>>
    decreases n,
{
    match n {
        Node::Styled { page, .. } => opt_view(page.numbering),
        Node::Sequence(children) => page_numbering_among(children@),
        Node::Labelled(inner, _) => page_numbering_of(*inner),
        _ => None,
    }
}

/// The page numbering of the first of `s` that has one.
pub open spec fn page_numbering_among(s: Seq<Node>) -> Option<Seq<char>>
    decreases s,
{
    if s.len() == 0 {
        None
    } else {
        match page_numbering_of(s[0]) {
            Some(x) => Some(x),
            None => page_numbering_among(s.drop_first()),
        }
    }
}

/// The custom page margin of `n`: that of the first styled element (found
/// through sequences, not inside a styled element) whose style set gives
/// one; inside, the margin's length when it is one length on all sides.
pub open spec fn page_margin_of(n: Node) -> Option<Option<Seq<char>>>
    decreases n,
{
    match n {
        Node::Styled { page, .. } => match page.margin {
            Some(m) => Some(opt_view(m)),
            None => None,
        },
        Node::Sequence(children) => page_margin_among(children@),
        Node::Labelled(inner, _) => page_margin_of(*inner),
        _ => None,
    }
}

/// The custom page margin of the first of `s` that has one.
pub open spec fn page_margin_among(s: Seq<Node>) -> Option<Option<Seq<char>>>
    decreases s,
{
    if s.len() == 0 {
        None
    } else {
        match page_margin_of(s[0]) {
            Some(x) => Some(x),
            None => page_margin_among(s.drop_first()),
        }
    }
}

fn copy_opt(o: &Option<String>) -> (res: Option<String>)
    ensures
        opt_view(res) == opt_view(*o),
{
    match o {
        Some(s) => Some(string_of(s.as_str())),
        None => None,
    }
}

/// The page numbering `#set page(numbering: ..)` gives the document, in
/// Typst's own description of it.
pub fn get_page_numbering(content: &Node) -> (res: Option<String>)
    ensures
        opt_view(res) == page_numbering_of(*content),
    decreases content, 1int,
{
    match content {
        Node::Styled { page, .. } => copy_opt(&page.numbering),
        Node::Sequence(children) => numbering_among(children),
        Node::Labelled(inner, _) => get_page_numbering(inner),
        _ => None,
    }
}

fn numbering_among(children: &Vec<Node>) -> (res: Option<String>)
    ensures
        opt_view(res) == page_numbering_among(children@),
    decreases children, 0int,
{
    let mut i: usize = 0;
    assert(children@.skip(0) =~= children@);
    while i < children.len()
        invariant
            i <= children@.len(),
            page_numbering_among(children@) == page_numbering_among(children@.skip(i as int)),
        decreases children@.len() - i,
    {
        assert(children@.skip(i as int).drop_first() =~= children@.skip(i + 1));
        assert(children@.skip(i as int)[0] == children@[i as int]);
        assert(decreases_to!(children => children@[i as int]));
        let found = get_page_numbering(&children[i]);
        if found.is_some() {
            return found;
        }
        i = i + 1;
    }
    assert(children@.skip(i as int) =~= Seq::<Node>::empty());
    None
}

/// The custom page margin `#set page(margin: ..)` gives the document: inside,
/// its LaTeX length when it is one length on all sides.
pub fn get_page_margin(content: &Node) -> (res: Option<Option<String>>)
    ensures
        match res {
            Some(m) => page_margin_of(*content) == Some(opt_view(m)),
            None => page_margin_of(*content) is None,
        },
    decreases content, 1int,
{
    match content {
        Node::Styled { page, .. } => match &page.margin {
            Some(m) => Some(copy_opt(m)),
            None => None,
        },
        Node::Sequence(children) => margin_among(children),
        Node::Labelled(inner, _) => get_page_margin(inner),
        _ => None,
    }
}

fn margin_among(children: &Vec<Node>) -> (res: Option<Option<String>>)
    ensures
        match res {
            Some(m) => page_margin_among(children@) == Some(opt_view(m)),
            None => page_margin_among(children@) is None,
        },
    decreases children, 0int,
{
    let mut i: usize = 0;
    assert(children@.skip(0) =~= children@);
    while i < children.len()
        invariant
            i <= children@.len(),
            page_margin_among(children@) == page_margin_among(children@.skip(i as int)),
        decreases children@.len() - i,
    {
        assert(children@.skip(i as int).drop_first() =~= children@.skip(i + 1));
        assert(children@.skip(i as int)[0] == children@[i as int]);
        assert(decreases_to!(children => children@[i as int]));
        let found = get_page_margin(&children[i]);
        if found.is_some() {
            return found;
        }
        i = i + 1;
    }
    assert(children@.skip(i as int) =~= Seq::<Node>::empty());
    None
}

/// The page length a style set assigns, if it assigns one: its height when
/// `height`, else its width; inside, the length if it is custom, none if it
/// is `auto`.
pub open spec fn page_length(page: PageStyle, height: bool) -> Option<Option<Seq<char>>> {
    let set = if height {
        page.height
    } else {
        page.width
    };
    match set {
        Some(l) => Some(opt_view(l)),
        None => None,
    }
}

/// The page width (or, when `height`, the page height) in force after `n`,
/// starting from `acc`: styled elements (labelled or not) and sequences are
/// walked in order; a style set that assigns a custom length replaces the
/// earlier one, one that assigns `auto` clears it, and one that leaves it
/// unassigned keeps it.
pub open spec fn page_length_after(n: Node, acc: Option<Seq<char>>, height: bool) -> Option<Seq<char>>
    decreases n,
{
    match n {
        Node::Styled { child, page } => page_length_after(
            *child,
            match page_length(page, height) {
                Some(x) => x,
                None => acc,
            },
            height,
        ),
        Node::Sequence(children) => page_length_among(children@, acc, height),
        Node::Labelled(inner, _) => page_length_after(*inner, acc, height),
        _ => acc,
    }
}

/// The page length in force after each of `s` in turn, starting from `acc`.
pub open spec fn page_length_among(s: Seq<Node>, acc: Option<Seq<char>>, height: bool) -> Option<Seq<char>>
    decreases s,
{
    if s.len() == 0 {
        acc
    } else {
        page_length_among(s.drop_first(), page_length_after(s[0], acc, height), height)
    }
}

fn length_after(n: &Node, acc: Option<String>, height: bool) -> (res: Option<String>)
    ensures
        opt_view(res) == page_length_after(*n, opt_view(acc), height),
    decreases n, 1int,
{
    match n {
        Node::Styled { child, page } => {
            let set = if height {
                &page.height
            } else {
                &page.width
            };
            let next = match set {
                Some(Some(x)) => Some(string_of(x.as_str())),
                Some(None) => None,
                None => acc,
            };
            length_after(child, next, height)
        },
        Node::Sequence(children) => length_among(children, acc, height),
        Node::Labelled(inner, _) => length_after(inner, acc, height),
        _ => acc,
    }
}

fn length_among(children: &Vec<Node>, acc: Option<String>, height: bool) -> (res: Option<String>)
    ensures
        opt_view(res) == page_length_among(children@, opt_view(acc), height),
    decreases children, 0int,
{
    let ghost start = opt_view(acc);
    let mut cur = acc;
    let mut i: usize = 0;
    assert(children@.skip(0) =~= children@);
    while i < children.len()
        invariant
            i <= children@.len(),
            page_length_among(children@, start, height) == page_length_among(
                children@.skip(i as int),
                opt_view(cur),
                height,
            ),
        decreases children@.len() - i,
    {
        assert(children@.skip(i as int).drop_first() =~= children@.skip(i + 1));
        assert(children@.skip(i as int)[0] == children@[i as int]);
        assert(decreases_to!(children => children@[i as int]));
        cur = length_after(&children[i], cur, height);
        i = i + 1;
    }
    assert(children@.skip(i as int) =~= Seq::<Node>::empty());
    cur
}

/// The custom page width and height `#set page(width: .., height: ..)`
/// gives the document, as LaTeX lengths: the last assignment of each wins,
/// so each is none if never set or last set to `auto`.
pub fn get_page_size(content: &Node) -> (res: (Option<String>, Option<String>))
    ensures
        opt_view(res.0) == page_length_after(*content, None, false),
        opt_view(res.1) == page_length_after(*content, None, true),
{
    (length_after(content, None, false), length_after(content, None, true))
}

/// The page settings that reach the preamble.
pub struct PageSetup {
    /// The LaTeX length of the page width, when the document sets one.
    pub width: Option<String>,
    /// The LaTeX length of the page height, when the document sets one.
    pub height: Option<String>,
    /// The LaTeX length of a uniform page margin, when the document sets one.
    pub margin: Option<String>,
    /// The page numbering, in Typst's own description of it.
    pub numbering: Option<String>,
}

/// The page settings that reach the preamble, as text.
pub struct PageView {
    pub width: Option<Seq<char>>,
    pub height: Option<Seq<char>>,
    pub margin: Option<Seq<char>>,
    pub numbering: Option<Seq<char>>,
}

impl View for PageSetup {
    type V = PageView;

    open spec fn view(&self) -> PageView {
        PageView {
            width: opt_view(self.width),
            height: opt_view(self.height),
            margin: opt_view(self.margin),
            numbering: opt_view(self.numbering),
        }
    }
}

/// The margin a page-margin setting puts in the preamble: a uniform one.
pub open spec fn uniform_margin(m: Option<Option<Seq<char>>>) -> Option<Seq<char>> {
    match m {
        Some(Some(x)) => Some(x),
        _ => None,
    }
}

/// The page settings of `n` that reach the preamble.
pub open spec fn page_setup_of(n: Node) -> PageView {
    PageView {
        width: page_length_after(n, None, false),
        height: page_length_after(n, None, true),
        margin: uniform_margin(page_margin_of(n)),
        numbering: page_numbering_of(n),
    }
}

/// The page settings of a document that reach the preamble: its page size,
/// its margin when that is uniform, and its page numbering.
pub fn get_page_setup(content: &Node) -> (res: PageSetup)
    ensures
        res@ == page_setup_of(*content),
{
    let (width, height) = get_page_size(content);
    let margin = match get_page_margin(content) {
        Some(Some(m)) => Some(m),
        _ => None,
    };
    let numbering = get_page_numbering(content);
    PageSetup { width, height, margin, numbering }
}

} // verus!
