//! What this application itself brings: its two checks, its pages and its
//! route tree.

use crate::route::{
    has_parent, index_count, is_edge, node_ok, nodes_ok, GateKind, RouteNode, RouteTree, Segment,
    ViewRef,
};
use vstd::pervasive::unreached;
use vstd::prelude::*;

verus! {

/// The value that a counter page starts from.
#[derive(Clone, Copy, Debug, PartialEq, Eq, Structural)]
pub enum Initial {
    Zero,
    Ten,
}

impl Initial {
    /// The number that the variant stands for.
    pub fn count(self) -> (n: i32)
        ensures
            n == match self {
                Initial::Zero => 0i32,
                Initial::Ten => 10i32,
            },
    {
        match self {
            Initial::Zero => 0,
            Initial::Ten => 10,
        }
    }
}

/// The bootstrap check: whether the site is ready. It always is.
pub fn load_site() -> (ready: bool)
    ensures
        ready,
{
    true
}

/// The session check: whether the session is valid. It always is.
pub fn login_check() -> (valid: bool)
    ensures
        valid,
{
    true
}

/// The view modules of the application.
#[derive(Clone, Copy, Debug, PartialEq, Eq, Structural)]
pub enum Page {
    /// The frame of the console, which guards what is inside by the session.
    Console,
    /// The counter page that starts from zero.
    HomeA,
    /// The counter page that starts from ten.
    HomeB,
    /// The root page.
    Root,
    /// The page for paths that lead nowhere.
    NotFound,
}

impl Page {
    /// The name under which the route tree knows the page.
    pub open spec fn view_ref(self) -> ViewRef {
        match self {
            Page::Console => ViewRef(1),
            Page::HomeA => ViewRef(2),
            Page::HomeB => ViewRef(3),
            Page::Root => ViewRef(4),
            Page::NotFound => ViewRef(5),
        }
    }

    /// The name under which the route tree knows the page.
    pub fn view(self) -> (view: ViewRef)
        ensures
            view == self.view_ref(),
    {
        match self {
            Page::Console => ViewRef(1),
            Page::HomeA => ViewRef(2),
            Page::HomeB => ViewRef(3),
            Page::Root => ViewRef(4),
            Page::NotFound => ViewRef(5),
        }
    }

    /// The page that a view name stands for.
    pub fn of(view: ViewRef) -> (page: Option<Page>)
        ensures
            match page {
                Some(p) => p.view_ref() == view,
                None => forall|p: Page| p.view_ref() != view,
            },
    {
        match view.0 {
            1 => Some(Page::Console),
            2 => Some(Page::HomeA),
            3 => Some(Page::HomeB),
            4 => Some(Page::Root),
            5 => Some(Page::NotFound),
            _ => None,
        }
    }

    /// The value that the page's counter starts from, where it has one.
    pub fn initial(self) -> (start: Option<Initial>)
        ensures
            start == match self {
                Page::HomeA => Some(Initial::Zero),
                Page::HomeB => Some(Initial::Ten),
                _ => None,
            },
    {
        match self {
            Page::HomeA => Some(Initial::Zero),
            Page::HomeB => Some(Initial::Ten),
            _ => None,
        }
    }
}

/// The position of the root in the application's tree.
pub const ROOT: usize = 0;

/// The position of the console frame.
pub const CONSOLE: usize = 1;

/// The position of the console's index, which redirects.
pub const CONSOLE_INDEX: usize = 2;

/// The position of the first counter page, inside the console.
pub const HOME_A: usize = 3;

/// The position of the second counter page.
pub const HOME_B: usize = 4;

/// The position of the root page.
pub const ROOT_PAGE: usize = 5;

/// The position of the page that takes any one segment.
pub const ANY_PAGE: usize = 6;

/// Whether `node` is a node without children that draws the view of `page`
/// and has no gate and no redirect.
pub open spec fn is_leaf(node: RouteNode, page: Page) -> bool {
    &&& node.children@.len() == 0
    &&& node.redirect is None
    &&& node.lazy_view == Some(page.view_ref())
    &&& node.gate is None
}

/// The application's tree. The root waits for the bootstrap and holds the
/// console, the second counter page, the root page, and a page for any other
/// single segment. The console waits for the session; inside it stand an
/// index that redirects to the first counter page, and that page.
pub open spec fn is_site(nodes: Seq<RouteNode>) -> bool {
    &&& nodes.len() == 7
    &&& nodes[0].segment is Index
    &&& nodes[0].children@ == seq![CONSOLE, HOME_B, ROOT_PAGE, ANY_PAGE]
    &&& nodes[0].redirect is None
    &&& nodes[0].lazy_view is None
    &&& nodes[0].gate == Some(GateKind::Bootstrap)
    &&& nodes[1].segment matches Segment::Literal(text) && text@ == "console"@
    &&& nodes[1].children@ == seq![CONSOLE_INDEX, HOME_A]
    &&& nodes[1].redirect is None
    &&& nodes[1].lazy_view == Some(Page::Console.view_ref())
    &&& nodes[1].gate == Some(GateKind::Session)
    &&& nodes[2].segment is Index
    &&& nodes[2].children@.len() == 0
    &&& nodes[2].redirect matches Some(target) && target@ == "/console/home-a"@
    &&& nodes[2].lazy_view is None
    &&& nodes[2].gate is None
    &&& nodes[3].segment matches Segment::Literal(text) && text@ == "home-a"@
    &&& is_leaf(nodes[3], Page::HomeA)
    &&& nodes[4].segment matches Segment::Literal(text) && text@ == "home-b"@
    &&& is_leaf(nodes[4], Page::HomeB)
    &&& nodes[5].segment is Index
    &&& is_leaf(nodes[5], Page::Root)
    &&& nodes[6].segment matches Segment::Param(name) && name@ == "page_id"@
    &&& is_leaf(nodes[6], Page::Root)
}

/// A node without children that draws the view of `page`.
fn leaf(segment: Segment, page: Page) -> (node: RouteNode)
    ensures
        node.segment == segment,
        is_leaf(node, page),
{
    RouteNode {
        segment,
        children: Vec::new(),
        redirect: None,
        lazy_view: Some(page.view()),
        gate: None,
    }
}

/// Builds the application's route tree.
pub fn site_routes() -> (tree: RouteTree)
    ensures
        tree.wf(),
        is_site(tree.nodes()),
        tree.fallback() == Page::NotFound.view_ref(),
{
    let mut top: Vec<usize> = Vec::new();
    top.push(CONSOLE);
    top.push(HOME_B);
    top.push(ROOT_PAGE);
    top.push(ANY_PAGE);
    let mut inner: Vec<usize> = Vec::new();
    inner.push(CONSOLE_INDEX);
    inner.push(HOME_A);
    assert(top@ =~= seq![CONSOLE, HOME_B, ROOT_PAGE, ANY_PAGE]);
    assert(inner@ =~= seq![CONSOLE_INDEX, HOME_A]);
    let mut nodes: Vec<RouteNode> = Vec::new();
    nodes.push(
        RouteNode {
            segment: Segment::Index,
            children: top,
            redirect: None,
            lazy_view: None,
            gate: Some(GateKind::Bootstrap),
        },
    );
    nodes.push(
        RouteNode {
            segment: Segment::Literal("console".to_owned()),
            children: inner,
            redirect: None,
            lazy_view: Some(Page::Console.view()),
            gate: Some(GateKind::Session),
        },
    );
    nodes.push(
        RouteNode {
            segment: Segment::Index,
            children: Vec::new(),
            redirect: Some("/console/home-a".to_owned()),
            lazy_view: None,
            gate: None,
        },
    );
    nodes.push(leaf(Segment::Literal("home-a".to_owned()), Page::HomeA));
    nodes.push(leaf(Segment::Literal("home-b".to_owned()), Page::HomeB));
    nodes.push(leaf(Segment::Index, Page::Root));
    nodes.push(leaf(Segment::Param("page_id".to_owned()), Page::Root));
    proof {
        lemma_site_in_order(nodes@);
    }
    match RouteTree::new(nodes, Some(Page::NotFound.view())) {
        Ok(tree) => tree,
        Err(_) => unreached(),
    }
}

/// The application's tree is a route tree.
pub proof fn lemma_site_in_order(nodes: Seq<RouteNode>)
    requires
        is_site(nodes),
    ensures
        nodes_ok(nodes),
{
    let top = nodes[0].children@;
    assert(top.drop_last() =~= seq![CONSOLE, HOME_B, ROOT_PAGE]);
    assert(top.drop_last().drop_last() =~= seq![CONSOLE, HOME_B]);
    assert(top.drop_last().drop_last().drop_last() =~= seq![CONSOLE]);
    assert(top.drop_last().drop_last().drop_last().drop_last() =~= Seq::<usize>::empty());
    assert(index_count(nodes, Seq::<usize>::empty()) == 0);
    assert(index_count(nodes, seq![CONSOLE]) == 0) by {
        assert(seq![CONSOLE].drop_last() =~= Seq::<usize>::empty());
        assert(seq![CONSOLE].last() == CONSOLE);
    }
    assert(seq![CONSOLE, HOME_B].last() == HOME_B);
    assert(seq![CONSOLE, HOME_B, ROOT_PAGE].last() == ROOT_PAGE);
    assert(top.last() == ANY_PAGE);
    assert(index_count(nodes, seq![CONSOLE, HOME_B]) == 0);
    assert(index_count(nodes, seq![CONSOLE, HOME_B, ROOT_PAGE]) == 1);
    assert(index_count(nodes, top) == 1);
    let inner = nodes[1].children@;
    assert(inner.drop_last() =~= seq![CONSOLE_INDEX]);
    assert(inner.drop_last().drop_last() =~= Seq::<usize>::empty());
    assert(index_count(nodes, seq![CONSOLE_INDEX]) == 1) by {
        assert(seq![CONSOLE_INDEX].drop_last() =~= Seq::<usize>::empty());
        assert(seq![CONSOLE_INDEX].last() == CONSOLE_INDEX);
    }
    assert(inner.last() == HOME_A);
    assert(index_count(nodes, inner) == 1);
    assert forall|i: int| 0 <= i < nodes.len() implies node_ok(nodes, i) by {
        if i == 0 {
        } else if i == 1 {
        } else if i == 2 {
        } else if i == 3 {
        } else if i == 4 {
        } else if i == 5 {
        } else {
        }
    }
    assert forall|c: int| 0 < c < nodes.len() implies #[trigger] has_parent(nodes, c) by {
        if c == 1 {
            assert(is_edge(nodes, 0, 0, c));
        } else if c == 2 {
            assert(is_edge(nodes, 1, 0, c));
        } else if c == 3 {
            assert(is_edge(nodes, 1, 1, c));
        } else if c == 4 {
            assert(is_edge(nodes, 0, 1, c));
        } else if c == 5 {
            assert(is_edge(nodes, 0, 2, c));
        } else {
            assert(is_edge(nodes, 0, 3, c));
        }
    }
    assert forall|p: int, j: int, q: int, k: int, c: int|
        is_edge(nodes, p, j, c) && is_edge(nodes, q, k, c) implies p == q && j == k by {
        assert(p == 0 || p == 1);
        assert(q == 0 || q == 1);
    }
}

} // verus!
