use oxirast::signal::Signal;
use oxirast::vdom::{display_value, render_to_string, VNode};

#[test]
fn render_text_node() {
    assert_eq!(render_to_string(&VNode::text("plain")), "plain");
}

#[test]
fn render_element_with_attrs_and_children() {
    let n = VNode::element("div")
        .attr("id", "main")
        .attr("class", "box")
        .child(VNode::text("a"))
        .child(VNode::element("span").child(VNode::text("b")).build())
        .build();
    assert_eq!(render_to_string(&n), "<div id=\"main\" class=\"box\">a<span>b</span></div>");
}

#[test]
fn attr_replaces_existing_key_in_place() {
    let n = VNode::element("p").attr("a", "1").attr("b", "2").attr("a", "3").build();
    assert_eq!(render_to_string(&n), "<p a=\"3\" b=\"2\"></p>");
}

#[test]
fn bound_attr_and_text_render_signal_values() {
    let cls = Signal::new("hot".to_string());
    let txt = Signal::new("Double: 4".to_string());
    let n = VNode::element("h2").bind_attr("class", cls).bind_text(txt).child(VNode::text("ignored")).build();
    assert_eq!(render_to_string(&n), "<h2 class=\"hot\">Double: 4</h2>");
}

#[test]
fn hidden_element_gets_display_none() {
    let hidden = VNode::element("div").bind_show(Signal::new(false)).build();
    assert_eq!(render_to_string(&hidden), "<div style=\"display:none;\"></div>");
    let shown = VNode::element("div").bind_show(Signal::new(true)).build();
    assert_eq!(render_to_string(&shown), "<div></div>");
}

#[test]
fn needs_id_for_events_or_cleanup() {
    assert!(!VNode::element("div").needs_id());
    assert!(VNode::element("div").on("click", 7).needs_id());
    assert!(VNode::element("div").on_cleanup(1).needs_id());
    assert!(!VNode::element("div").on_mount(1).needs_id());
}

#[test]
fn display_values() {
    assert_eq!(display_value(true), "");
    assert_eq!(display_value(false), "none");
}

#[test]
fn events_do_not_render() {
    let n = VNode::element("button").on("click", 3).child(VNode::text("Go")).build();
    assert_eq!(render_to_string(&n), "<button>Go</button>");
}
