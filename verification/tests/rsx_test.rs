use oxirast::rsx::{expand, expand_tokens, generate_node, rsx, rsx_tokens, AttrValue, HtmlAttribute, HtmlNode, RsxError};
use oxirast::tokens::{classify, tokenize, RawTok, Tok};

#[test]
fn rsx_renders_text_literal() {
    assert_eq!(rsx(r#""hello""#).unwrap(), "hello");
}

#[test]
fn rsx_unescapes_string_literals() {
    assert_eq!(rsx(r#"<p>"a \"b\""</p>"#).unwrap(), "<p>a \"b\"</p>");
}

#[test]
fn rsx_mismatched_tag_is_refused() {
    match rsx(r#"<div>"x"</span>"#) {
        Err(e @ RsxError::MismatchedTag { .. }) => {
            assert_eq!(e.message(), "Mismatched tag. Expected `div`, found `span`");
            assert_eq!(e.position(), Some(6));
            if let RsxError::MismatchedTag { expected, found, at } = e {
                assert_eq!(expected, "div");
                assert_eq!(found, "span");
                assert_eq!(at, 6);
            }
        }
        _ => panic!("expected a mismatched tag"),
    }
}

#[test]
fn rsx_unclosed_element_ends_early() {
    assert!(matches!(rsx(r#"<div>"x""#), Err(RsxError::UnexpectedEnd)));
}

#[test]
fn rsx_bare_word_is_unexpected() {
    // `<`, `div`, `>`, then `hello` where a node must stand.
    assert!(matches!(rsx("<div>hello</div>"), Err(RsxError::Unexpected(3))));
}

#[test]
fn rsx_trailing_tokens_are_refused() {
    assert!(matches!(rsx(r#""a" "b""#), Err(RsxError::TrailingTokens(1))));
}

#[test]
fn rsx_unlexable_source() {
    assert!(matches!(rsx("<div>\"unclosed</div>"), Err(RsxError::Lex)));
}

#[test]
fn rsx_invalid_expression() {
    assert!(matches!(rsx("<p>{}</p>"), Err(RsxError::InvalidExpression(3))));
}

#[test]
fn rsx_expression_is_not_static() {
    assert!(matches!(rsx("<p>{count}</p>"), Err(RsxError::NotStatic)));
}

#[test]
fn rsx_component_is_not_static() {
    assert!(matches!(rsx("<Login />"), Err(RsxError::NotStatic)));
}

#[test]
fn rsx_event_handler_renders_no_attribute() {
    assert_eq!(rsx(r#"<button on_click={go}>"Go"</button>"#).unwrap(), "<button>Go</button>");
}

#[test]
fn rsx_missing_equals_sign() {
    assert!(matches!(rsx(r#"<p class "x">"y"</p>"#), Err(RsxError::Unexpected(3))));
}

#[test]
fn expand_element_with_literals() {
    assert_eq!(
        expand(r#"<div class="c">"hi"</div>"#).unwrap(),
        "oxirast_core::VNode::element(\"div\").attr(\"class\", \"c\").child(oxirast_core::VNode::text(\"hi\")).build()"
    );
}

#[test]
fn expand_bind_text_and_events() {
    assert_eq!(
        expand(r#"<h2 bind_text={double} on_click={go}></h2>"#).unwrap(),
        "oxirast_core::VNode::element(\"h2\").bind_text(double).on(\"click\", std::rc::Rc::new(std::cell::RefCell::new(Box::new(go)))).build()"
    );
}

#[test]
fn expand_expression_attribute_and_child() {
    assert_eq!(
        expand(r#"<p title={t}>{n}</p>"#).unwrap(),
        "oxirast_core::VNode::element(\"p\").attr(\"title\", &(t).to_string()).child(oxirast_core::VNode::text(&(n).to_string())).build()"
    );
}

#[test]
fn expand_components() {
    assert_eq!(expand("<Login />").unwrap(), "Login()");
    assert_eq!(
        expand(r#"<Card title="T" size={2} />"#).unwrap(),
        "Card(CardProps { title: String::from(\"T\"), size: 2 })"
    );
}

#[test]
fn expand_event_name_drops_every_on() {
    assert_eq!(
        expand("<b on_x_on_y={f}></b>").unwrap(),
        "oxirast_core::VNode::element(\"b\").on(\"x_y\", std::rc::Rc::new(std::cell::RefCell::new(Box::new(f)))).build()"
    );
}

#[test]
fn tokenize_classifies_tokens() {
    let toks = tokenize(r#"<a href="x"> {y} 3"#).unwrap();
    assert_eq!(toks.len(), 8);
    assert!(matches!(toks[0], Tok::Punct('<')));
    assert!(matches!(&toks[1], Tok::Ident(s) if s == "a"));
    assert!(matches!(&toks[4], Tok::Str { raw, value } if raw == "\"x\"" && value == "x"));
    assert!(matches!(toks[5], Tok::Punct('>')));
    assert!(matches!(&toks[6], Tok::Brace { text, is_expr: true } if text == "y"));
    assert!(matches!(&toks[7], Tok::Lit(s) if s == "3"));
}

#[test]
fn classify_keeps_order() {
    let raw = vec![RawTok::Punct('<'), RawTok::Ident("p".to_string()), RawTok::Literal("\"v\"".to_string())];
    let toks = classify(&raw);
    assert!(matches!(toks[0], Tok::Punct('<')));
    assert!(matches!(&toks[2], Tok::Str { value, .. } if value == "v"));
}

#[test]
fn parse_and_generate_round() {
    let toks = tokenize(r#"<ul><li>"a"</li></ul>"#).unwrap();
    let node = HtmlNode::parse_tokens(&toks).unwrap();
    match &node {
        HtmlNode::Element(e) => {
            assert_eq!(e.tag, "ul");
            assert_eq!(e.children.len(), 1);
            assert!(!e.self_closing);
        }
        _ => panic!("expected an element"),
    }
    assert_eq!(
        generate_node(&node),
        "oxirast_core::VNode::element(\"ul\").child(oxirast_core::VNode::element(\"li\").child(oxirast_core::VNode::text(\"a\")).build()).build()"
    );
}

#[test]
fn rsx_joined_attribute_names() {
    assert_eq!(
        rsx(r#"<div bind_attr:title="x" data="7">"t"</div>"#).unwrap(),
        "<div bind_attr:title=\"x\" data=\"7\">t</div>"
    );
}

#[test]
fn rsx_other_colon_names_are_refused() {
    // `<`, `div`, `aria`, then `:` where `=` must stand.
    assert!(matches!(rsx(r#"<div aria:label="x"></div>"#), Err(RsxError::Unexpected(3))));
    // Only one part may follow `bind_attr`.
    assert!(matches!(rsx(r#"<div bind_attr:a:b="x"></div>"#), Err(RsxError::Unexpected(5))));
}

#[test]
fn rsx_hyphenated_name_is_refused() {
    // `<`, `div`, `data`, then `-` where `=` must stand.
    let e = rsx(r#"<div data-id="7"></div>"#).unwrap_err();
    assert!(matches!(e, RsxError::Unexpected(3)));
    assert_eq!(e.message(), "unexpected token");
    assert_eq!(e.position(), Some(3));
}

#[test]
fn rsx_dangling_name_separator() {
    // `<`, `div`, `bind_attr`, `:`, then `=` where a name part must stand.
    assert!(matches!(rsx(r#"<div bind_attr:="x"></div>"#), Err(RsxError::Unexpected(4))));
}

#[test]
fn rsx_bound_attribute_is_not_static() {
    assert!(matches!(rsx("<h2 bind_attr:class={c}></h2>"), Err(RsxError::NotStatic)));
}

#[test]
fn expand_bound_attribute() {
    assert_eq!(
        expand(r#"<h2 bind_attr:class={is_high} bind_text={double}></h2>"#).unwrap(),
        "oxirast_core::VNode::element(\"h2\").bind_attr(\"class\", is_high).bind_text(double).build()"
    );
}

#[test]
fn attribute_parse_returns_next_position() {
    let toks = tokenize(r#"bind_attr:class="7" x"#).unwrap();
    let (attr, next) = HtmlAttribute::parse(&toks, 0).unwrap();
    assert_eq!(attr.key, "bind_attr:class");
    assert!(matches!(attr.value, AttrValue::Literal { ref value, .. } if value == "7"));
    assert_eq!(next, 5);
}

#[test]
fn printed_tokens_parse_back() {
    // The tokens of `<a bind_attr:x="v" on_click={f} />` written out one by one.
    let toks = vec![
        Tok::Punct('<'),
        Tok::Ident("a".to_string()),
        Tok::Ident("bind_attr".to_string()),
        Tok::Punct(':'),
        Tok::Ident("x".to_string()),
        Tok::Punct('='),
        Tok::Str { raw: "\"v\"".to_string(), value: "v".to_string() },
        Tok::Ident("on_click".to_string()),
        Tok::Punct('='),
        Tok::Brace { text: "f".to_string(), is_expr: true },
        Tok::Punct('/'),
        Tok::Punct('>'),
    ];
    match HtmlNode::parse_tokens(&toks).unwrap() {
        HtmlNode::Element(e) => {
            assert_eq!(e.tag, "a");
            assert!(e.self_closing);
            assert!(e.children.is_empty());
            assert_eq!(e.attributes.len(), 2);
            assert_eq!(e.attributes[0].key, "bind_attr:x");
            assert!(matches!(&e.attributes[0].value, AttrValue::Literal { raw, value } if raw == "\"v\"" && value == "v"));
            assert_eq!(e.attributes[1].key, "on_click");
            assert!(matches!(&e.attributes[1].value, AttrValue::Expression(x) if x == "f"));
        }
        _ => panic!("expected an element"),
    }
}

#[test]
fn rsx_tokens_renders_given_tokens() {
    let toks = vec![
        Tok::Punct('<'),
        Tok::Ident("p".to_string()),
        Tok::Punct('>'),
        Tok::Str { raw: "\"hi\"".to_string(), value: "hi".to_string() },
        Tok::Punct('<'),
        Tok::Punct('/'),
        Tok::Ident("p".to_string()),
        Tok::Punct('>'),
    ];
    assert_eq!(rsx_tokens(&toks).unwrap(), "<p>hi</p>");
    assert_eq!(
        expand_tokens(&toks).unwrap(),
        "oxirast_core::VNode::element(\"p\").child(oxirast_core::VNode::text(\"hi\")).build()"
    );
    let mut short = toks;
    short.truncate(3);
    assert!(matches!(rsx_tokens(&short), Err(RsxError::UnexpectedEnd)));
}
