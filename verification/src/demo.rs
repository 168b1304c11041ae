//! The example pages of the demo application.

use vstd::prelude::*;
use crate::keyed::{has_key, keyed, upsert};
use crate::vdom::{
    attrs_html, child, html, pair_views, html_seq, is_element, is_leaf, is_text, lemma_html_plain, lemma_html_seq_push, leaf,
    plain, with_attr, CallbackId, VNode,
};

verus! {

/// The dashboard's tree: a `react-card` div holding a heading and two
/// paragraphs, the second of class `live-text`.
pub open spec fn dashboard_tree(n: VNode) -> bool {
    &&& is_element(n, "div"@, seq![("class"@, "react-card"@)], 3, Map::empty())
    &&& is_leaf(child(n, 0), "h2"@, seq![], "Vyron Trust Dashboard"@)
    &&& is_leaf(child(n, 1), "p"@, seq![], "Authentication successful."@)
    &&& is_leaf(child(n, 2), "p"@, seq![("class"@, "live-text"@)], "Welcome to your secure portal."@)
}

/// The login page's tree: a `react-card` div holding a heading, a username
/// and a password input, and a submit button that runs `on_submit` on
/// `click`.
pub open spec fn login_tree(n: VNode, on_submit: CallbackId) -> bool {
    &&& is_element(n, "div"@, seq![("class"@, "react-card"@)], 4, Map::empty())
    &&& is_leaf(child(n, 0), "h2"@, seq![], "Secure Login"@)
    &&& is_element(
        child(n, 1),
        "input"@,
        seq![("type"@, "text"@), ("class"@, "input-field"@), ("placeholder"@, "Username"@)],
        0,
        Map::empty(),
    )
    &&& is_element(
        child(n, 2),
        "input"@,
        seq![("type"@, "password"@), ("class"@, "input-field"@), ("placeholder"@, "Password"@)],
        0,
        Map::empty(),
    )
    &&& is_element(child(n, 3), "button"@, seq![], 1, Map::empty().insert("click"@, on_submit))
    &&& is_text(child(child(n, 3), 0), "Submit"@)
}

/// The greeting page's tree: a div holding a heading and a paragraph.
pub open spec fn hello_tree(n: VNode) -> bool {
    &&& is_element(n, "div"@, seq![], 2, Map::empty())
    &&& is_leaf(child(n, 0), "h1"@, seq![], "hello oxirast"@)
    &&& is_leaf(child(n, 1), "p"@, seq![], "my first wasm component is running"@)
}

/// The demo application's tree: an `app-container` div holding a heading,
/// the login page, and an empty `dashboard` element.
pub open spec fn demo_tree(n: VNode, on_submit: CallbackId) -> bool {
    &&& is_element(n, "div"@, seq![("class"@, "app-container"@)], 3, Map::empty())
    &&& is_leaf(child(n, 0), "h1"@, seq![], "Welcome to Vyron Trust"@)
    &&& login_tree(child(n, 1), on_submit)
    &&& is_element(child(n, 2), "dashboard"@, seq![], 0, Map::empty())
}

/// The dashboard page.
#[allow(non_snake_case)]
#[verifier::rlimit(40)]
pub fn Dashboard() -> (n: VNode)
    ensures
        dashboard_tree(n),
        html(n) == "<div class=\"react-card\"><h2>Vyron Trust Dashboard</h2><p>Authentication successful.</p><p class=\"live-text\">Welcome to your secure portal.</p></div>"@,
{
    let h2 = leaf("h2", "Vyron Trust Dashboard");
    let p1 = leaf("p", "Authentication successful.");
    let p2e = with_attr(plain("p"), "class", "live-text");
    let p2t = VNode::text("Welcome to your secure portal.");
    let p2e = p2e.child(p2t);
    let div = with_attr(plain("div"), "class", "react-card");
    let ghost c0 = div.children@;
    let div = div.child(h2);
    let ghost c1 = div.children@;
    let div = div.child(p1);
    let ghost c2 = div.children@;
    proof {
        lemma_html_plain(p2e);
        lemma_html_seq_push(Seq::<VNode>::empty(), p2t);
        assert(Seq::<VNode>::empty().push(p2t) =~= p2e.children@);
    }
    let p2 = p2e.build();
    let div = div.child(p2);
    proof {
        lemma_html_plain(div);
        lemma_html_seq_push(c0, h2);
        lemma_html_seq_push(c1, p1);
        lemma_html_seq_push(c2, p2);
        assert(c0.len() == 0);
        assert(html_seq(c0) == Seq::<char>::empty());
        reveal_strlit("<div class=\"react-card\"><h2>Vyron Trust Dashboard</h2><p>Authentication successful.</p><p class=\"live-text\">Welcome to your secure portal.</p></div>");
        reveal_strlit("div");
        reveal_strlit("class");
        reveal_strlit("react-card");
        reveal_strlit("h2");
        reveal_strlit("Vyron Trust Dashboard");
        reveal_strlit("p");
        reveal_strlit("Authentication successful.");
        reveal_strlit("live-text");
        reveal_strlit("Welcome to your secure portal.");
        assert(html(VNode::Element(div)) =~= "<div class=\"react-card\"><h2>Vyron Trust Dashboard</h2><p>Authentication successful.</p><p class=\"live-text\">Welcome to your secure portal.</p></div>"@);
    }
    div.build()
}

/// The login page; its submit button runs the host's callback `on_submit`
/// on `click`.
#[allow(non_snake_case)]
#[verifier::rlimit(60)]
pub fn Login(on_submit: CallbackId) -> (n: VNode)
    ensures
        login_tree(n, on_submit),
        html(n) == "<div class=\"react-card\"><h2>Secure Login</h2><input type=\"text\" class=\"input-field\" placeholder=\"Username\"></input><input type=\"password\" class=\"input-field\" placeholder=\"Password\"></input><button>Submit</button></div>"@,
{
    proof {
        reveal_strlit("type");
        reveal_strlit("class");
        reveal_strlit("placeholder");
    }
    let h2 = leaf("h2", "Secure Login");
    let in1 = with_attr(plain("input"), "type", "text");
    let in1 = with_attr(in1, "class", "input-field");
    let in1 = with_attr(in1, "placeholder", "Username");
    assert(pair_views(in1.attrs@) =~= seq![("type"@, "text"@), ("class"@, "input-field"@), ("placeholder"@, "Username"@)]);
    let in2 = with_attr(plain("input"), "type", "password");
    let in2 = with_attr(in2, "class", "input-field");
    let in2 = with_attr(in2, "placeholder", "Password");
    assert(pair_views(in2.attrs@) =~= seq![("type"@, "password"@), ("class"@, "input-field"@), ("placeholder"@, "Password"@)]);
    let bt = VNode::text("Submit");
    let be = plain("button").on("click", on_submit).child(bt);
    proof {
        lemma_html_plain(in1);
        lemma_html_plain(in2);
        lemma_html_plain(be);
        lemma_html_seq_push(Seq::<VNode>::empty(), bt);
        assert(Seq::<VNode>::empty().push(bt) =~= be.children@);
        assert(html_seq(Seq::<VNode>::empty()) == Seq::<char>::empty());
        assert(keyed(Seq::<(String, CallbackId)>::empty()) == Map::<Seq<char>, CallbackId>::empty());
    }
    let i1 = in1.build();
    let i2 = in2.build();
    let b = be.build();
    let div = with_attr(plain("div"), "class", "react-card");
    let ghost c0 = div.children@;
    let div = div.child(h2);
    let ghost c1 = div.children@;
    let div = div.child(i1);
    let ghost c2 = div.children@;
    let div = div.child(i2);
    let ghost c3 = div.children@;
    let div = div.child(b);
    proof {
        lemma_html_plain(div);
        lemma_html_seq_push(c0, h2);
        lemma_html_seq_push(c1, i1);
        lemma_html_seq_push(c2, i2);
        lemma_html_seq_push(c3, b);
        assert(html_seq(c0) == Seq::<char>::empty());
        reveal_strlit("<div class=\"react-card\"><h2>Secure Login</h2><input type=\"text\" class=\"input-field\" placeholder=\"Username\"></input><input type=\"password\" class=\"input-field\" placeholder=\"Password\"></input><button>Submit</button></div>");
        reveal_strlit("div");
        reveal_strlit("react-card");
        reveal_strlit("h2");
        reveal_strlit("Secure Login");
        reveal_strlit("input");
        reveal_strlit("text");
        reveal_strlit("input-field");
        reveal_strlit("Username");
        reveal_strlit("password");
        reveal_strlit("Password");
        reveal_strlit("button");
        reveal_strlit("Submit");
        assert(html(VNode::Element(div)) =~= "<div class=\"react-card\"><h2>Secure Login</h2><input type=\"text\" class=\"input-field\" placeholder=\"Username\"></input><input type=\"password\" class=\"input-field\" placeholder=\"Password\"></input><button>Submit</button></div>"@);
        assert(div.children@[3] == b);
        assert(div.children@[0] == h2 && div.children@[1] == i1 && div.children@[2] == i2);
    }
    div.build()
}

/// The demo application: a heading, the login page whose submit button
/// runs `on_submit`, and an empty `dashboard` element.
pub fn demo_app(on_submit: CallbackId) -> (n: VNode)
    ensures
        demo_tree(n, on_submit),
{
    let h1 = leaf("h1", "Welcome to Vyron Trust");
    let login = Login(on_submit);
    let dash = plain("dashboard").build();
    let div = with_attr(plain("div"), "class", "app-container");
    let div = div.child(h1).child(login).child(dash);
    div.build()
}

/// The greeting page.
#[allow(non_snake_case)]
#[verifier::rlimit(40)]
pub fn HelloWorld() -> (n: VNode)
    ensures
        hello_tree(n),
        html(n) == "<div><h1>hello oxirast</h1><p>my first wasm component is running</p></div>"@,
{
    let h1 = leaf("h1", "hello oxirast");
    let p = leaf("p", "my first wasm component is running");
    let div = plain("div");
    let ghost c0 = div.children@;
    let div = div.child(h1);
    let ghost c1 = div.children@;
    let div = div.child(p);
    proof {
        lemma_html_plain(div);
        lemma_html_seq_push(c0, h1);
        lemma_html_seq_push(c1, p);
        assert(html_seq(c0) == Seq::<char>::empty());
        assert(attrs_html(div.attrs@) == Seq::<char>::empty());
        reveal_strlit("<div><h1>hello oxirast</h1><p>my first wasm component is running</p></div>");
        reveal_strlit("div");
        reveal_strlit("h1");
        reveal_strlit("hello oxirast");
        reveal_strlit("p");
        reveal_strlit("my first wasm component is running");
        assert(html(VNode::Element(div)) =~= "<div><h1>hello oxirast</h1><p>my first wasm component is running</p></div>"@);
    }
    div.build()
}

} // verus!
