use leptos_ssr_lazy::gate::GateState;
use leptos_ssr_lazy::lazy::{LazySlot, LoadFault, ModuleId};
use leptos_ssr_lazy::matcher::Capture;
use leptos_ssr_lazy::navigator::{Effect, GateRef, Navigation, Navigator, RenderDecision, Terminal};
use leptos_ssr_lazy::plan::Layer;
use leptos_ssr_lazy::route::{GateKind, RouteError, RouteNode, RouteTree, Segment, ViewRef};
use leptos_ssr_lazy::start::{
    load_site, login_check, site_routes, Page, ANY_PAGE, CONSOLE, HOME_A, HOME_B, ROOT_PAGE,
};

const NOT_FOUND: ViewRef = ViewRef(99);

fn node(segment: Segment, children: Vec<usize>) -> RouteNode {
    RouteNode { segment, children, redirect: None, lazy_view: None, gate: None }
}

fn literal(text: &str) -> Segment {
    Segment::Literal(text.to_string())
}

fn redirect(segment: Segment, target: &str) -> RouteNode {
    RouteNode { segment, children: vec![], redirect: Some(target.to_string()), lazy_view: None, gate: None }
}

fn page(segment: Segment, view: u64) -> RouteNode {
    RouteNode { segment, children: vec![], redirect: None, lazy_view: Some(ViewRef(view)), gate: None }
}

/// A console behind the session gate, whose index redirects to its only
/// page, beside a root page. Nothing takes other paths.
fn console_tree() -> RouteTree {
    let mut root = node(Segment::Index, vec![1, 4]);
    root.gate = Some(GateKind::Bootstrap);
    let mut console = node(literal("console"), vec![2, 3]);
    console.gate = Some(GateKind::Session);
    console.lazy_view = Some(ViewRef(1));
    let nodes = vec![
        root,
        console,
        redirect(Segment::Index, "/console/home-a"),
        page(literal("home-a"), 2),
        page(Segment::Index, 4),
    ];
    RouteTree::new(nodes, Some(NOT_FOUND)).unwrap()
}

/// `/a` redirects to `/b`, `/b` to `/c`, and `/c` is a page; `/x` and `/y`
/// redirect to each other.
fn redirect_tree() -> RouteTree {
    let nodes = vec![
        node(Segment::Index, vec![1, 2, 3, 4, 5, 6]),
        redirect(literal("a"), "/b"),
        redirect(literal("b"), "/c"),
        page(literal("c"), 3),
        redirect(literal("x"), "/y"),
        redirect(literal("y"), "/x"),
        page(Segment::Index, 4),
    ];
    RouteTree::new(nodes, Some(NOT_FOUND)).unwrap()
}

fn started(tree: RouteTree, max_hops: usize) -> Navigator {
    let mut nav = Navigator::new(tree, max_hops);
    let first = nav.navigate("/");
    assert_eq!(first.effect, Some(Effect::StartCheck { gate: GateRef::Bootstrap, ticket: 0 }));
    assert!(nav.check_resolved(GateRef::Bootstrap, 0, Some(load_site())));
    nav
}

fn shows(layers: Vec<Layer>, terminal: Terminal, effect: Option<Effect>) -> Navigation {
    Navigation { decision: RenderDecision { layers, terminal, params: vec![] }, effect }
}

fn layer(node: usize, view: ViewRef, module: u64) -> Layer {
    Layer { node, view, module: ModuleId(module) }
}

#[test]
fn a_new_controller_has_nothing_mounted_and_nothing_loaded() {
    let nav = Navigator::new(site_routes(), 8);
    assert_eq!(nav.max_hops(), 8);
    assert_eq!(nav.tree(), &site_routes());
    assert_eq!(nav.current(), None);
    assert_eq!(nav.gate_state(GateRef::Bootstrap), None);
    for n in 0..7 {
        assert_eq!(nav.gate_state(GateRef::Session(n)), None);
        assert_eq!(nav.slot(n), Some(LazySlot::Unloaded));
    }
    assert_eq!(nav.slot(7), None);
    assert_eq!(nav.gate_state(GateRef::Session(7)), None);
}

#[test]
fn there_is_nothing_to_resume_before_the_first_navigation() {
    let mut nav = Navigator::new(site_routes(), 8);
    assert_eq!(nav.resume(), None);
    assert_eq!(nav.gate_state(GateRef::Bootstrap), None);
}

#[test]
fn console_with_valid_session_renders_home_a() {
    let mut nav = Navigator::new(site_routes(), 8);
    let console_view = Page::Console.view();
    let home_view = Page::HomeA.view();

    assert_eq!(
        nav.navigate("/console"),
        shows(
            vec![],
            Terminal::GateFallback(GateKind::Bootstrap),
            Some(Effect::StartCheck { gate: GateRef::Bootstrap, ticket: 0 })
        )
    );
    assert_eq!(nav.current(), Some("/console".to_string()));
    assert!(nav.check_resolved(GateRef::Bootstrap, 0, Some(load_site())));

    assert_eq!(
        nav.resume(),
        Some(shows(
            vec![],
            Terminal::GateFallback(GateKind::Session),
            Some(Effect::StartCheck { gate: GateRef::Session(CONSOLE), ticket: 0 })
        ))
    );
    assert!(nav.check_resolved(GateRef::Session(CONSOLE), 0, Some(login_check())));

    assert_eq!(
        nav.resume(),
        Some(shows(
            vec![],
            Terminal::LoadFallback(CONSOLE),
            Some(Effect::StartLoad { node: CONSOLE, view: console_view })
        ))
    );
    assert!(nav.load_settled(CONSOLE, Ok(ModuleId(11))));

    assert_eq!(
        nav.resume(),
        Some(shows(
            vec![layer(CONSOLE, console_view, 11)],
            Terminal::LoadFallback(HOME_A),
            Some(Effect::StartLoad { node: HOME_A, view: home_view })
        ))
    );
    assert!(nav.load_settled(HOME_A, Ok(ModuleId(12))));

    let rendered = shows(
        vec![layer(CONSOLE, console_view, 11), layer(HOME_A, home_view, 12)],
        Terminal::Complete,
        None,
    );
    assert_eq!(nav.resume(), Some(rendered.clone()));
    assert_eq!(nav.navigate("/console"), rendered);
    assert_eq!(nav.navigate("/console/home-a"), rendered);
    assert_eq!(nav.current(), Some("/console/home-a".to_string()));
}

#[test]
fn console_with_invalid_session_renders_the_failure_view() {
    let mut nav = started(console_tree(), 8);
    let waiting = nav.navigate("/console");
    assert_eq!(waiting.effect, Some(Effect::StartCheck { gate: GateRef::Session(1), ticket: 0 }));
    assert!(nav.check_resolved(GateRef::Session(1), 0, Some(false)));
    let failed = shows(vec![], Terminal::GateFailure(GateKind::Session), None);
    assert_eq!(nav.resume(), Some(failed.clone()));
    assert_eq!(nav.navigate("/console"), failed);
    assert_eq!(nav.navigate("/console/home-a"), failed);
    assert_eq!(failed.decision.terminal.error(), Some(RouteError::GateCheckFailure));
    assert_eq!(nav.slot(1), Some(LazySlot::Unloaded));
    assert_eq!(nav.slot(3), Some(LazySlot::Unloaded));
    assert_eq!(nav.gate_state(GateRef::Session(1)), Some(GateState::Failed));
}

#[test]
fn a_failing_session_check_renders_the_failure_view() {
    let mut nav = started(console_tree(), 8);
    nav.navigate("/console");
    assert!(nav.check_resolved(GateRef::Session(1), 0, None));
    assert_eq!(nav.resume(), Some(shows(vec![], Terminal::GateFailure(GateKind::Session), None)));
    assert_eq!(nav.slot(3), Some(LazySlot::Unloaded));
}

#[test]
fn a_failed_session_does_not_touch_the_rest_of_the_site() {
    let mut nav = started(console_tree(), 8);
    nav.navigate("/console");
    nav.check_resolved(GateRef::Session(1), 0, Some(false));
    assert_eq!(
        nav.navigate("/"),
        shows(
            vec![],
            Terminal::LoadFallback(4),
            Some(Effect::StartLoad { node: 4, view: ViewRef(4) })
        )
    );
    assert!(nav.load_settled(4, Ok(ModuleId(40))));
    assert_eq!(nav.resume(), Some(shows(vec![layer(4, ViewRef(4), 40)], Terminal::Complete, None)));
}

#[test]
fn an_unmapped_path_renders_not_found() {
    let mut nav = started(console_tree(), 8);
    let lost = shows(vec![], Terminal::NotFound(NOT_FOUND), None);
    assert_eq!(nav.navigate("/unknown"), lost);
    assert_eq!(nav.resume(), Some(lost));
    assert_eq!(nav.navigate("/unknown").decision.terminal.error(), None);
    for n in 0..5 {
        assert_eq!(nav.slot(n), Some(LazySlot::Unloaded));
    }
}

#[test]
fn a_path_that_goes_too_deep_is_not_found_on_the_site() {
    let mut nav = started(site_routes(), 8);
    assert_eq!(
        nav.navigate("/unknown/deeper"),
        shows(vec![], Terminal::NotFound(Page::NotFound.view()), None)
    );
    assert_eq!(
        nav.navigate("/console/elsewhere"),
        shows(vec![], Terminal::NotFound(Page::NotFound.view()), None)
    );
}

#[test]
fn a_pending_bootstrap_holds_every_navigation_back() {
    let mut nav = Navigator::new(site_routes(), 8);
    let first = nav.navigate("/console");
    assert_eq!(
        first,
        shows(
            vec![],
            Terminal::GateFallback(GateKind::Bootstrap),
            Some(Effect::StartCheck { gate: GateRef::Bootstrap, ticket: 0 })
        )
    );
    let waiting = shows(vec![], Terminal::GateFallback(GateKind::Bootstrap), None);
    for path in ["/", "/console", "/console/home-a", "/home-b", "/unknown", "/much/too/deep"] {
        assert_eq!(nav.navigate(path), waiting);
        assert_eq!(nav.resume(), Some(waiting.clone()));
    }
    assert_eq!(nav.gate_state(GateRef::Bootstrap), Some(GateState::Pending));
    for n in 0..7 {
        assert_eq!(nav.gate_state(GateRef::Session(n)), None);
        assert_eq!(nav.slot(n), Some(LazySlot::Unloaded));
    }
    assert!(nav.check_resolved(GateRef::Bootstrap, 0, Some(true)));
    assert_eq!(
        nav.resume(),
        Some(shows(vec![], Terminal::NotFound(Page::NotFound.view()), None))
    );
}

#[test]
fn a_failed_bootstrap_is_final() {
    let mut nav = Navigator::new(site_routes(), 8);
    nav.navigate("/");
    assert!(nav.check_resolved(GateRef::Bootstrap, 0, Some(false)));
    let failed = shows(vec![], Terminal::GateFailure(GateKind::Bootstrap), None);
    assert_eq!(nav.resume(), Some(failed.clone()));
    assert_eq!(nav.navigate("/home-b"), failed);
    assert!(!nav.check_resolved(GateRef::Bootstrap, 0, Some(true)));
    assert_eq!(nav.navigate("/home-b"), failed);
    assert_eq!(nav.slot(HOME_B), Some(LazySlot::Unloaded));
}

#[test]
fn a_satisfied_bootstrap_stays_satisfied() {
    let mut nav = started(site_routes(), 8);
    assert!(!nav.check_resolved(GateRef::Bootstrap, 0, Some(false)));
    assert!(!nav.check_resolved(GateRef::Bootstrap, 1, Some(false)));
    assert_eq!(nav.gate_state(GateRef::Bootstrap), Some(GateState::Satisfied));
}

#[test]
fn many_navigations_start_one_load() {
    let mut nav = started(site_routes(), 8);
    let mut loads = 0;
    for _ in 0..6 {
        let nav_result = nav.navigate("/home-b");
        assert_eq!(nav_result.decision.terminal, Terminal::LoadFallback(HOME_B));
        if let Some(Effect::StartLoad { node, view }) = nav_result.effect {
            assert_eq!((node, view), (HOME_B, Page::HomeB.view()));
            loads += 1;
        }
    }
    assert_eq!(loads, 1);
    assert_eq!(nav.slot(HOME_B), Some(LazySlot::Loading));
    assert!(nav.load_settled(HOME_B, Ok(ModuleId(5))));
    assert!(!nav.load_settled(HOME_B, Ok(ModuleId(6))));
    assert_eq!(
        nav.navigate("/home-b"),
        shows(vec![layer(HOME_B, Page::HomeB.view(), 5)], Terminal::Complete, None)
    );
}

#[test]
fn navigating_again_to_a_rendered_path_does_nothing() {
    let mut nav = started(site_routes(), 8);
    nav.navigate("/");
    nav.load_settled(ROOT_PAGE, Ok(ModuleId(1)));
    let rendered = shows(vec![layer(ROOT_PAGE, Page::Root.view(), 1)], Terminal::Complete, None);
    let before = nav.clone();
    for _ in 0..3 {
        assert_eq!(nav.navigate("/"), rendered);
        assert_eq!(nav.slot(ROOT_PAGE), before.slot(ROOT_PAGE));
        assert_eq!(nav.gate_state(GateRef::Bootstrap), Some(GateState::Satisfied));
        for n in 0..7 {
            assert_eq!(nav.slot(n), before.slot(n));
            assert_eq!(nav.gate_state(GateRef::Session(n)), before.gate_state(GateRef::Session(n)));
        }
    }
}

#[test]
fn a_failed_load_shows_its_error_until_the_next_navigation() {
    let mut nav = started(site_routes(), 8);
    nav.navigate("/home-b");
    assert!(nav.load_settled(HOME_B, Err(LoadFault(404))));
    let broken = shows(vec![], Terminal::LoadFailure(HOME_B, LoadFault(404)), None);
    assert_eq!(nav.resume(), Some(broken.clone()));
    assert_eq!(nav.resume(), Some(broken.clone()));
    assert_eq!(broken.decision.terminal.error(), Some(RouteError::LazyLoadFailure));
    assert_eq!(nav.slot(HOME_B), Some(LazySlot::Failed(LoadFault(404))));
    assert_eq!(
        nav.navigate("/home-b"),
        shows(
            vec![],
            Terminal::LoadFallback(HOME_B),
            Some(Effect::StartLoad { node: HOME_B, view: Page::HomeB.view() })
        )
    );
    assert!(nav.load_settled(HOME_B, Ok(ModuleId(8))));
    assert_eq!(
        nav.resume(),
        Some(shows(vec![layer(HOME_B, Page::HomeB.view(), 8)], Terminal::Complete, None))
    );
}

#[test]
fn a_failed_load_below_leaves_the_views_above_standing() {
    let mut nav = started(console_tree(), 8);
    nav.navigate("/console/home-a");
    nav.check_resolved(GateRef::Session(1), 0, Some(true));
    nav.resume();
    nav.load_settled(1, Ok(ModuleId(10)));
    nav.resume();
    assert!(nav.load_settled(3, Err(LoadFault(1))));
    assert_eq!(
        nav.resume(),
        Some(shows(vec![layer(1, ViewRef(1), 10)], Terminal::LoadFailure(3, LoadFault(1)), None))
    );
}

#[test]
fn a_parameter_reaches_the_view() {
    let mut nav = started(site_routes(), 8);
    nav.navigate("/some-page");
    nav.load_settled(ANY_PAGE, Ok(ModuleId(3)));
    let got = nav.resume().unwrap();
    assert_eq!(got.effect, None);
    assert_eq!(
        got.decision,
        RenderDecision {
            layers: vec![layer(ANY_PAGE, Page::Root.view(), 3)],
            terminal: Terminal::Complete,
            params: vec![Capture { name: "page_id".to_string(), value: "some-page".to_string() }],
        }
    );
}

#[test]
fn the_same_view_is_loaded_once_for_each_node() {
    let mut nav = started(site_routes(), 8);
    nav.navigate("/");
    nav.load_settled(ROOT_PAGE, Ok(ModuleId(1)));
    assert_eq!(
        nav.navigate("/other"),
        Navigation {
            decision: RenderDecision {
                layers: vec![],
                terminal: Terminal::LoadFallback(ANY_PAGE),
                params: vec![Capture { name: "page_id".to_string(), value: "other".to_string() }],
            },
            effect: Some(Effect::StartLoad { node: ANY_PAGE, view: Page::Root.view() }),
        }
    );
}

#[test]
fn redirects_within_the_bound_are_followed() {
    let mut nav = started(redirect_tree(), 2);
    assert_eq!(
        nav.navigate("/a"),
        shows(vec![], Terminal::LoadFallback(3), Some(Effect::StartLoad { node: 3, view: ViewRef(3) }))
    );
    nav.load_settled(3, Ok(ModuleId(30)));
    let rendered = shows(vec![layer(3, ViewRef(3), 30)], Terminal::Complete, None);
    assert_eq!(nav.navigate("/a"), rendered);
    assert_eq!(nav.navigate("/b"), rendered);
    assert_eq!(nav.navigate("/c"), rendered);
}

#[test]
fn one_redirect_more_than_the_bound_fails() {
    let failure = shows(vec![], Terminal::RedirectFailure, None);
    let mut one = started(redirect_tree(), 1);
    assert_eq!(one.navigate("/a"), failure);
    assert_eq!(one.slot(3), Some(LazySlot::Unloaded));
    assert_eq!(one.navigate("/b").decision.terminal, Terminal::LoadFallback(3));
    let mut none = started(redirect_tree(), 0);
    assert_eq!(none.navigate("/b"), failure);
    assert_eq!(none.navigate("/c").decision.terminal, Terminal::LoadFallback(3));
    assert_eq!(failure.decision.terminal.error(), Some(RouteError::RedirectLoopExceeded));
}

#[test]
fn a_redirect_loop_ends_in_the_redirect_failure() {
    let failure = shows(vec![], Terminal::RedirectFailure, None);
    for bound in [0, 1, 2, 7, 100] {
        let mut nav = started(redirect_tree(), bound);
        assert_eq!(nav.navigate("/x"), failure);
        assert_eq!(nav.navigate("/y"), failure);
        assert_eq!(nav.resume(), Some(failure.clone()));
    }
}

#[test]
fn a_new_token_sets_the_session_gate_waiting_again() {
    let mut nav = started(console_tree(), 8);
    nav.navigate("/console/home-a");
    nav.check_resolved(GateRef::Session(1), 0, Some(true));
    assert!(nav.can_change_token(1));
    assert_eq!(
        nav.token_changed(1),
        Some(Effect::StartCheck { gate: GateRef::Session(1), ticket: 1 })
    );
    assert_eq!(nav.gate_state(GateRef::Session(1)), Some(GateState::Pending));
    assert_eq!(nav.resume(), Some(shows(vec![], Terminal::GateFallback(GateKind::Session), None)));
    assert!(nav.check_resolved(GateRef::Session(1), 1, Some(true)));
    assert_eq!(
        nav.resume().unwrap().effect,
        Some(Effect::StartLoad { node: 1, view: ViewRef(1) })
    );
}

#[test]
fn only_the_check_of_the_last_token_counts() {
    let mut nav = started(console_tree(), 8);
    nav.navigate("/console");
    let first = nav.token_changed(1);
    let second = nav.token_changed(1);
    assert_eq!(first, Some(Effect::StartCheck { gate: GateRef::Session(1), ticket: 1 }));
    assert_eq!(second, Some(Effect::StartCheck { gate: GateRef::Session(1), ticket: 2 }));
    assert!(!nav.check_resolved(GateRef::Session(1), 0, Some(true)));
    assert!(!nav.check_resolved(GateRef::Session(1), 1, Some(true)));
    assert_eq!(nav.gate_state(GateRef::Session(1)), Some(GateState::Pending));
    assert!(nav.check_resolved(GateRef::Session(1), 2, Some(false)));
    assert_eq!(nav.gate_state(GateRef::Session(1)), Some(GateState::Failed));
    assert!(!nav.check_resolved(GateRef::Session(1), 1, Some(true)));
    assert_eq!(nav.gate_state(GateRef::Session(1)), Some(GateState::Failed));
    assert_eq!(nav.resume(), Some(shows(vec![], Terminal::GateFailure(GateKind::Session), None)));
}

#[test]
fn a_token_without_a_mounted_gate_changes_nothing() {
    let mut nav = started(console_tree(), 8);
    assert!(nav.can_change_token(1));
    assert!(nav.can_change_token(50));
    assert_eq!(nav.token_changed(1), None);
    assert_eq!(nav.token_changed(50), None);
    assert_eq!(nav.gate_state(GateRef::Session(1)), None);
}

#[test]
fn reports_for_what_is_not_there_are_dropped() {
    let mut nav = started(console_tree(), 8);
    assert!(!nav.check_resolved(GateRef::Session(1), 0, Some(true)));
    assert!(!nav.check_resolved(GateRef::Session(50), 0, Some(true)));
    assert!(!nav.load_settled(3, Ok(ModuleId(1))));
    assert!(!nav.load_settled(50, Ok(ModuleId(1))));
    assert_eq!(nav.gate_state(GateRef::Session(1)), None);
    assert_eq!(nav.slot(3), Some(LazySlot::Unloaded));
}

#[test]
fn a_report_before_any_navigation_is_dropped() {
    let mut nav = Navigator::new(console_tree(), 8);
    assert!(!nav.check_resolved(GateRef::Bootstrap, 0, Some(true)));
    assert_eq!(nav.gate_state(GateRef::Bootstrap), None);
}

#[test]
fn views_that_stand_for_no_error() {
    assert_eq!(Terminal::Complete.error(), None);
    assert_eq!(Terminal::NotFound(NOT_FOUND).error(), None);
    assert_eq!(Terminal::GateFallback(GateKind::Session).error(), None);
    assert_eq!(Terminal::LoadFallback(1).error(), None);
    assert_eq!(Terminal::GateFailure(GateKind::Bootstrap).error(), Some(RouteError::GateCheckFailure));
}
