use oxirast::demo::{demo_app, Dashboard, HelloWorld, Login};
use oxirast::vdom::{render_to_string, VNode};

#[test]
fn dashboard_html() {
    assert_eq!(
        render_to_string(&Dashboard()),
        "<div class=\"react-card\"><h2>Vyron Trust Dashboard</h2><p>Authentication successful.</p><p class=\"live-text\">Welcome to your secure portal.</p></div>"
    );
}

#[test]
fn login_html_and_handler() {
    let page = Login(42);
    assert_eq!(
        render_to_string(&page),
        "<div class=\"react-card\"><h2>Secure Login</h2><input type=\"text\" class=\"input-field\" placeholder=\"Username\"></input><input type=\"password\" class=\"input-field\" placeholder=\"Password\"></input><button>Submit</button></div>"
    );
    match &page {
        VNode::Element(e) => match &e.children[3] {
            VNode::Element(b) => assert_eq!(b.events, vec![("click".to_string(), 42)]),
            _ => panic!("expected the button"),
        },
        _ => panic!("expected an element"),
    }
}

#[test]
fn hello_world_html() {
    assert_eq!(
        render_to_string(&HelloWorld()),
        "<div><h1>hello oxirast</h1><p>my first wasm component is running</p></div>"
    );
}

fn tag(n: &VNode) -> &str {
    match n {
        VNode::Element(e) => e.tag.as_str(),
        VNode::Text(_) => panic!("expected an element"),
    }
}

fn kids(n: &VNode) -> &Vec<VNode> {
    match n {
        VNode::Element(e) => &e.children,
        VNode::Text(_) => panic!("expected an element"),
    }
}

#[test]
fn login_tree_shape() {
    let page = Login(7);
    assert_eq!(tag(&page), "div");
    let c = kids(&page);
    assert_eq!(c.len(), 4);
    assert_eq!(tag(&c[1]), "input");
    match &c[1] {
        VNode::Element(e) => {
            assert_eq!(
                e.attrs,
                vec![
                    ("type".to_string(), "text".to_string()),
                    ("class".to_string(), "input-field".to_string()),
                    ("placeholder".to_string(), "Username".to_string())
                ]
            );
            assert!(e.children.is_empty());
        }
        _ => unreachable!(),
    }
    assert!(matches!(&kids(&c[3])[0], VNode::Text(t) if t == "Submit"));
}

#[test]
fn hello_world_tree_shape() {
    let page = HelloWorld();
    assert_eq!(tag(&page), "div");
    let c = kids(&page);
    assert_eq!((tag(&c[0]), tag(&c[1])), ("h1", "p"));
    assert!(matches!(&kids(&c[0])[0], VNode::Text(t) if t == "hello oxirast"));
}

#[test]
fn demo_app_html() {
    assert_eq!(
        render_to_string(&demo_app(1)),
        "<div class=\"app-container\"><h1>Welcome to Vyron Trust</h1><div class=\"react-card\"><h2>Secure Login</h2><input type=\"text\" class=\"input-field\" placeholder=\"Username\"></input><input type=\"password\" class=\"input-field\" placeholder=\"Password\"></input><button>Submit</button></div><dashboard></dashboard></div>"
    );
}
