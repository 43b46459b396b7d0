use leptos_ssr_lazy::route::{GateKind, RouteNode, Segment, ViewRef};
use leptos_ssr_lazy::start::{
    load_site, login_check, site_routes, Initial, Page, ANY_PAGE, CONSOLE, CONSOLE_INDEX, HOME_A,
    HOME_B, ROOT, ROOT_PAGE,
};

#[test]
fn initial_values() {
    assert_eq!(Initial::Zero.count(), 0);
    assert_eq!(Initial::Ten.count(), 10);
}

#[test]
fn the_site_is_ready() {
    assert!(load_site());
}

#[test]
fn the_session_is_valid() {
    assert!(login_check());
}

#[test]
fn pages_and_their_names_go_both_ways() {
    for page in [Page::Console, Page::HomeA, Page::HomeB, Page::Root, Page::NotFound] {
        assert_eq!(Page::of(page.view()), Some(page));
    }
    assert_eq!(Page::of(ViewRef(0)), None);
    assert_eq!(Page::of(ViewRef(6)), None);
}

#[test]
fn counter_pages_have_their_start() {
    assert_eq!(Page::HomeA.initial(), Some(Initial::Zero));
    assert_eq!(Page::HomeB.initial(), Some(Initial::Ten));
    assert_eq!(Page::Console.initial(), None);
    assert_eq!(Page::Root.initial(), None);
    assert_eq!(Page::NotFound.initial(), None);
}

#[test]
fn the_site_tree_is_as_declared() {
    let tree = site_routes();
    assert_eq!(tree.len(), 7);
    assert_eq!(tree.not_found(), Page::NotFound.view());
    assert_eq!(
        tree.node(ROOT),
        &RouteNode {
            segment: Segment::Index,
            children: vec![CONSOLE, HOME_B, ROOT_PAGE, ANY_PAGE],
            redirect: None,
            lazy_view: None,
            gate: Some(GateKind::Bootstrap),
        }
    );
    assert_eq!(
        tree.node(CONSOLE),
        &RouteNode {
            segment: Segment::Literal("console".to_string()),
            children: vec![CONSOLE_INDEX, HOME_A],
            redirect: None,
            lazy_view: Some(Page::Console.view()),
            gate: Some(GateKind::Session),
        }
    );
    assert_eq!(
        tree.node(CONSOLE_INDEX),
        &RouteNode {
            segment: Segment::Index,
            children: vec![],
            redirect: Some("/console/home-a".to_string()),
            lazy_view: None,
            gate: None,
        }
    );
    let leaf = |segment: Segment, page: Page| RouteNode {
        segment,
        children: vec![],
        redirect: None,
        lazy_view: Some(page.view()),
        gate: None,
    };
    assert_eq!(tree.node(HOME_A), &leaf(Segment::Literal("home-a".to_string()), Page::HomeA));
    assert_eq!(tree.node(HOME_B), &leaf(Segment::Literal("home-b".to_string()), Page::HomeB));
    assert_eq!(tree.node(ROOT_PAGE), &leaf(Segment::Index, Page::Root));
    assert_eq!(tree.node(ANY_PAGE), &leaf(Segment::Param("page_id".to_string()), Page::Root));
}
