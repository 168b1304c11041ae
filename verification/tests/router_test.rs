use oxirast::router::{match_route, next_step, not_found_page, parse_query, NavAction, Router, MAX_REDIRECTS};
use oxirast::signal::Signal;
use oxirast::vdom::{render_to_string, VNode};

fn lookup(params: &[(String, String)], key: &str) -> Option<String> {
    params.iter().find(|(k, _)| k == key).map(|(_, v)| v.clone())
}

#[test]
fn static_route_matches_only_itself() {
    assert!(match_route("/about", "/about").is_some());
    assert!(match_route("/about", "/about/me").is_none());
    assert!(match_route("/about", "/contact").is_none());
    assert!(match_route("/", "/").is_some());
}

#[test]
fn parameter_route_extracts_segment() {
    let p = match_route("/user/:id", "/user/42").unwrap();
    assert_eq!(lookup(&p, "id"), Some("42".to_string()));
    assert_eq!(p.len(), 1);
    assert!(match_route("/user/:id", "/user").is_none());
}

#[test]
fn dashboard_guarded_pattern() {
    let p = match_route("/dashboard/:id", "/dashboard/7").unwrap();
    assert_eq!(lookup(&p, "id"), Some("7".to_string()));
}

#[test]
fn wildcard_takes_the_rest() {
    let p = match_route("/files/*", "/files/a/b/c").unwrap();
    assert_eq!(lookup(&p, "wildcard"), Some("a/b/c".to_string()));
    let q = match_route("/files/*", "/files").unwrap();
    assert_eq!(lookup(&q, "wildcard"), Some("".to_string()));
    assert!(match_route("/files/*", "/other/x").is_none());
}

#[test]
fn repeated_parameter_keeps_last_value() {
    let p = match_route("/:a/:a", "/x/y").unwrap();
    assert_eq!(p.len(), 1);
    assert_eq!(lookup(&p, "a"), Some("y".to_string()));
}

#[test]
fn resolve_picks_first_registered_match() {
    let r = Router::new("root").route("/", 0).route("/user/:id", 1).route("/user/*", 2);
    let m = r.resolve("/user/5").unwrap();
    assert_eq!(m.component, 1);
    assert_eq!(lookup(&m.params, "id"), Some("5".to_string()));
    assert!(r.resolve("/nothing").is_none());
    assert_eq!(r.root_id(), "root");
}

#[test]
fn route_with_same_path_replaces() {
    let r = Router::new("root").route("/a", 0).route("/a", 9);
    assert_eq!(r.resolve("/a").unwrap().component, 9);
}

#[test]
fn guard_refusal_redirects() {
    let r = Router::new("root").route("/login", 0).guarded_route("/dashboard/:id", 1, 3, "/login");
    let m = r.resolve("/dashboard/12").unwrap();
    assert_eq!(m.component, 1);
    match m.action(false) {
        NavAction::Redirect(p) => assert_eq!(p, "/login"),
        _ => panic!("expected a redirect"),
    }
    assert!(matches!(m.action(true), NavAction::Render(1)));
    let open = r.resolve("/login").unwrap();
    assert!(matches!(open.action(false), NavAction::Render(0)));
}

#[test]
fn not_found_page_html() {
    assert_eq!(render_to_string(&not_found_page()), "<h1>404 Not Found</h1>");
}

fn page(c: usize, nav: Signal<String>, params: Vec<(String, String)>) -> VNode {
    let id = lookup(&params, "id").unwrap_or_default();
    VNode::element("p").child(VNode::text(&format!("{}:{}:{}", c, nav.get(), id))).build()
}

#[test]
fn ssr_renders_exact_route() {
    let r = Router::new("root").route("/", 0).route("/about", 1);
    assert_eq!(r.render_route_to_string("/about", &vec![], page), "<p>1:/about:</p>");
    assert_eq!(r.render_route_to_string("/missing", &vec![], page), "<h1>404 Not Found</h1>");
}

#[test]
fn ssr_matches_parameters() {
    let r = Router::new("root").route("/user/:id", 0);
    assert_eq!(r.render_route_to_string("/user/42", &vec![], page), "<p>0:/user/42:42</p>");
}

#[test]
fn ssr_follows_guard_redirect() {
    let r = Router::new("root").route("/login", 0).guarded_route("/dashboard", 1, 0, "/login");
    let refused = r.render_route_to_string("/dashboard", &vec![false], page);
    assert_eq!(refused, r.render_route_to_string("/login", &vec![false], page));
    assert_eq!(refused, "<p>0:/login:</p>");
    assert_eq!(r.render_route_to_string("/dashboard", &vec![true], page), "<p>1:/dashboard:</p>");
    // A guard without an answer refuses.
    assert_eq!(r.render_route_to_string("/dashboard", &vec![], page), "<p>0:/login:</p>");
}

#[test]
fn ssr_redirect_loop_gives_not_found() {
    let r = Router::new("root").guarded_route("/a", 0, 0, "/a");
    assert_eq!(r.render_route_to_string("/a", &vec![false], page), "<h1>404 Not Found</h1>");
}

#[test]
fn next_step_limits_redirects() {
    let r = Router::new("root").guarded_route("/a", 5, 0, "/b");
    let m = r.resolve("/a");
    assert!(matches!(next_step(&m, true, 0), NavAction::Render(5)));
    assert!(matches!(next_step(&m, false, 0), NavAction::Redirect(ref p) if p == "/b"));
    assert!(matches!(next_step(&m, false, MAX_REDIRECTS - 1), NavAction::Redirect(_)));
    assert!(matches!(next_step(&m, false, MAX_REDIRECTS), NavAction::NotFound));
    assert!(matches!(next_step(&r.resolve("/zzz"), true, 0), NavAction::NotFound));
}

#[test]
fn query_string_parsing() {
    let q = parse_query("?sort=asc&page=2&&flag&sort=desc&eq=a=b");
    assert_eq!(lookup(&q, "sort"), Some("desc".to_string()));
    assert_eq!(lookup(&q, "page"), Some("2".to_string()));
    assert_eq!(lookup(&q, "flag"), Some("".to_string()));
    assert_eq!(lookup(&q, "eq"), Some("a=b".to_string()));
    assert_eq!(q.len(), 4);
    assert!(parse_query("sort=asc").is_empty());
    assert!(parse_query("").is_empty());
    assert!(parse_query("?").is_empty());
}

#[test]
fn not_found_page_is_an_h1_with_text() {
    match not_found_page() {
        VNode::Element(e) => {
            assert_eq!(e.tag, "h1");
            assert!(matches!(&e.children[..], [VNode::Text(t)] if t == "404 Not Found"));
        }
        _ => panic!("expected an element"),
    }
}

#[test]
fn ssr_exact_route_wins_over_earlier_pattern() {
    let r = Router::new("root").route("/:x", 0).route("/about", 1);
    assert_eq!(r.render_route_to_string("/about", &vec![], page), "<p>1:/about:</p>");
    assert_eq!(r.render_route_to_string("/home", &vec![], page), "<p>0:/home:</p>");
    assert_eq!(r.lookup("/about").unwrap().component, 1);
    assert_eq!(r.resolve("/about").unwrap().component, 0);
}
