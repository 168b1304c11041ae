//! The virtual DOM: element and text nodes, their builders, and the
//! server-side HTML renderer.

use vstd::prelude::*;
use crate::keyed::{keyed, keys_unique, upsert, insert_keyed};
use crate::signal::Signal;
use crate::text::push_char;

verus! {

/// Identifies a callback that the host registered (an event handler or a
/// lifecycle hook); the host keeps the callback itself.
pub type CallbackId = u64;

/// A node of the virtual DOM.
pub enum VNode {
    Element(VElement),
    Text(String),
}

/// An element of the virtual DOM. Keyed collections (`attrs`,
/// `bound_attrs`, `events`) hold each key once when built with the builders.
pub struct VElement {
    pub tag: String,
    pub attrs: Vec<(String, String)>,
    pub bound_attrs: Vec<(String, Signal<String>)>,
    pub children: Vec<VNode>,
    pub events: Vec<(String, CallbackId)>,
    pub bound_text: Option<Signal<String>>,
    pub bound_show: Option<Signal<bool>>,
    pub on_mount: Option<CallbackId>,
    pub on_cleanup: Option<CallbackId>,
}

/// The static attributes of an element, as a map from name to value.
pub open spec fn attr_map(e: VElement) -> Map<Seq<char>, Seq<char>> {
    keyed(e.attrs@).map_values(|v: String| v@)
}

/// The element's keyed collections hold each key once.
pub open spec fn element_wf(e: VElement) -> bool {
    &&& keys_unique(e.attrs@)
    &&& keys_unique(e.bound_attrs@)
    &&& keys_unique(e.events@)
}

/// Names and values of attribute pairs, in order.
pub open spec fn pair_views(s: Seq<(String, String)>) -> Seq<(Seq<char>, Seq<char>)> {
    s.map_values(|a: (String, String)| (a.0@, a.1@))
}

/// `n` is an element with tag `tag`, the static attributes `attrs` in this
/// order, `len` children, the event handlers `events`, and no signal
/// binding or lifecycle hook.
pub open spec fn is_element(
    n: VNode,
    tag: Seq<char>,
    attrs: Seq<(Seq<char>, Seq<char>)>,
    len: int,
    events: Map<Seq<char>, CallbackId>,
) -> bool {
    match n {
        VNode::Element(e) => {
            &&& e.tag@ == tag
            &&& pair_views(e.attrs@) == attrs
            &&& e.bound_attrs@.len() == 0
            &&& e.children@.len() == len
            &&& keyed(e.events@) == events
            &&& e.bound_text is None
            &&& e.bound_show is None
            &&& e.on_mount is None
            &&& e.on_cleanup is None
        },
        VNode::Text(_) => false,
    }
}

/// The `i`-th child of an element.
pub open spec fn child(n: VNode, i: int) -> VNode {
    n->Element_0.children@[i]
}

/// `n` is a text node holding `s`.
pub open spec fn is_text(n: VNode, s: Seq<char>) -> bool {
    n matches VNode::Text(t) && t@ == s
}

/// `n` is an element with tag `tag` and the static attributes `attrs`,
/// holding one text node `text`, with nothing else set.
pub open spec fn is_leaf(n: VNode, tag: Seq<char>, attrs: Seq<(Seq<char>, Seq<char>)>, text: Seq<char>) -> bool {
    is_element(n, tag, attrs, 1, Map::empty()) && is_text(child(n, 0), text)
}

/// ` name="value"`
pub open spec fn attr_html(name: Seq<char>, value: Seq<char>) -> Seq<char> {
    seq![' '] + name + seq!['=', '"'] + value + seq!['"']
}

/// The static attributes, rendered in order.
pub open spec fn attrs_html(s: Seq<(String, String)>) -> Seq<char>
    decreases s.len(),
{
    if s.len() == 0 {
        Seq::<char>::empty()
    } else {
        attrs_html(s.drop_last()) + attr_html(s.last().0@, s.last().1@)
    }
}

/// The signal-bound attributes, rendered in order with the signals' current values.
pub open spec fn bound_attrs_html(s: Seq<(String, Signal<String>)>) -> Seq<char>
    decreases s.len(),
{
    if s.len() == 0 {
        Seq::<char>::empty()
    } else {
        bound_attrs_html(s.drop_last()) + attr_html(s.last().0@, s.last().1.value()@)
    }
}

/// The style that hides an element whose visibility signal is false.
pub open spec fn show_html(show: Option<Signal<bool>>) -> Seq<char> {
    match show {
        Some(s) => if s.value() {
            Seq::<char>::empty()
        } else {
            " style=\"display:none;\""@
        },
        None => Seq::<char>::empty(),
    }
}

/// The HTML of a node: text as it is; an element as its tag, its attributes,
/// then either its bound text or its children, then the closing tag.
pub open spec fn html(n: VNode) -> Seq<char>
    decreases n,
{
    match n {
        VNode::Text(t) => t@,
        VNode::Element(e) => seq!['<'] + e.tag@ + attrs_html(e.attrs@) + bound_attrs_html(
            e.bound_attrs@,
        ) + show_html(e.bound_show) + seq!['>'] + (match e.bound_text {
            Some(s) => s.value()@,
            None => html_seq(e.children@),
        }) + seq!['<', '/'] + e.tag@ + seq!['>'],
    }
}

/// The HTML of a sequence of nodes, one after the other.
pub open spec fn html_seq(s: Seq<VNode>) -> Seq<char>
    decreases s,
{
    if s.len() == 0 {
        Seq::<char>::empty()
    } else {
        html_seq(s.drop_last()) + html(s.last())
    }
}

impl VNode {
    /// A new element with tag `tag` and nothing else.
    pub fn element(tag: &str) -> (e: VElement)
        ensures
            e.tag@ == tag@,
            e.attrs@.len() == 0,
            e.bound_attrs@.len() == 0,
            e.children@.len() == 0,
            e.events@.len() == 0,
            e.bound_text is None,
            e.bound_show is None,
            e.on_mount is None,
            e.on_cleanup is None,
    {
        VElement {
            tag: String::from_str(tag),
            attrs: Vec::new(),
            bound_attrs: Vec::new(),
            children: Vec::new(),
            events: Vec::new(),
            bound_text: None,
            bound_show: None,
            on_mount: None,
            on_cleanup: None,
        }
    }

    /// A text node.
    pub fn text(s: &str) -> (n: VNode)
        ensures
            n matches VNode::Text(t) && t@ == s@,
    {
        VNode::Text(String::from_str(s))
    }
}

impl VElement {
    /// Sets the static attribute `key` to `val`.
    pub fn attr(self, key: &str, val: &str) -> (r: Self)
        ensures
            attr_map(r) == attr_map(self).insert(key@, val@),
            exists|k: String, v: String| k@ == key@ && v@ == val@ && r.attrs@ == upsert(self.attrs@, (k, v)),
            element_wf(self) ==> element_wf(r),
            r.tag == self.tag,
            r.bound_attrs == self.bound_attrs,
            r.children == self.children,
            r.events == self.events,
            r.bound_text == self.bound_text,
            r.bound_show == self.bound_show,
            r.on_mount == self.on_mount,
            r.on_cleanup == self.on_cleanup,
    {
        let mut s = self;
        let v = String::from_str(val);
        let k = String::from_str(key);
        insert_keyed(&mut s.attrs, k, v);
        assert(attr_map(s) =~= attr_map(self).insert(key@, val@));
        s
    }

    /// Binds the attribute `key` to the signal `sig`.
    pub fn bind_attr(self, key: &str, sig: Signal<String>) -> (r: Self)
        ensures
            keyed(r.bound_attrs@) == keyed(self.bound_attrs@).insert(key@, sig),
            exists|k: String| k@ == key@ && r.bound_attrs@ == upsert(self.bound_attrs@, (k, sig)),
            element_wf(self) ==> element_wf(r),
            r.tag == self.tag,
            r.attrs == self.attrs,
            r.children == self.children,
            r.events == self.events,
            r.bound_text == self.bound_text,
            r.bound_show == self.bound_show,
            r.on_mount == self.on_mount,
            r.on_cleanup == self.on_cleanup,
    {
        let mut s = self;
        insert_keyed(&mut s.bound_attrs, String::from_str(key), sig);
        s
    }

    /// Registers the callback `cb` for the event `event`.
    pub fn on(self, event: &str, cb: CallbackId) -> (r: Self)
        ensures
            keyed(r.events@) == keyed(self.events@).insert(event@, cb),
            exists|k: String| k@ == event@ && r.events@ == upsert(self.events@, (k, cb)),
            element_wf(self) ==> element_wf(r),
            r.tag == self.tag,
            r.attrs == self.attrs,
            r.bound_attrs == self.bound_attrs,
            r.children == self.children,
            r.bound_text == self.bound_text,
            r.bound_show == self.bound_show,
            r.on_mount == self.on_mount,
            r.on_cleanup == self.on_cleanup,
    {
        let mut s = self;
        insert_keyed(&mut s.events, String::from_str(event), cb);
        s
    }

    /// Appends `node` after the existing children.
    pub fn child(self, node: VNode) -> (r: Self)
        ensures
            r.children@ == self.children@.push(node),
            r.tag == self.tag,
            r.attrs == self.attrs,
            r.bound_attrs == self.bound_attrs,
            r.events == self.events,
            r.bound_text == self.bound_text,
            r.bound_show == self.bound_show,
            r.on_mount == self.on_mount,
            r.on_cleanup == self.on_cleanup,
    {
        let mut s = self;
        s.children.push(node);
        s
    }

    /// Binds the element's text content to `sig`.
    pub fn bind_text(self, sig: Signal<String>) -> (r: Self)
        ensures
            r == (VElement { bound_text: Some(sig), ..self }),
    {
        let mut s = self;
        s.bound_text = Some(sig);
        s
    }

    /// Binds the element's visibility to `sig`.
    pub fn bind_show(self, sig: Signal<bool>) -> (r: Self)
        ensures
            r == (VElement { bound_show: Some(sig), ..self }),
    {
        let mut s = self;
        s.bound_show = Some(sig);
        s
    }

    /// Registers the callback to run when the element is mounted.
    pub fn on_mount(self, cb: CallbackId) -> (r: Self)
        ensures
            r == (VElement { on_mount: Some(cb), ..self }),
    {
        let mut s = self;
        s.on_mount = Some(cb);
        s
    }

    /// Registers the callback to run when the element is removed.
    pub fn on_cleanup(self, cb: CallbackId) -> (r: Self)
        ensures
            r == (VElement { on_cleanup: Some(cb), ..self }),
    {
        let mut s = self;
        s.on_cleanup = Some(cb);
        s
    }

    /// The element as a node.
    pub fn build(self) -> (n: VNode)
        ensures
            n == VNode::Element(self),
    {
        VNode::Element(self)
    }

    /// Whether the DOM engine must tag the element with an identifier: it
    /// has event handlers or a cleanup hook to find again later.
    pub fn needs_id(&self) -> (r: bool)
        ensures
            r == (self.events@.len() > 0 || self.on_cleanup is Some),
    {
        self.events.len() > 0 || self.on_cleanup.is_some()
    }
}

/// How a page is put into its root element.
#[derive(Debug, PartialEq, Eq, Structural)]
pub enum MountMode {
    /// Attach reactivity and handlers to the HTML the server rendered.
    Hydrate,
    /// Clear the root and render the page afresh.
    Replace,
}

/// On the first load, when the root already holds the server's HTML, the
/// page is hydrated onto it; otherwise the root's content is replaced.
pub fn mount_mode(first_load: bool, root_has_children: bool) -> (m: MountMode)
    ensures
        m == (if first_load && root_has_children {
            MountMode::Hydrate
        } else {
            MountMode::Replace
        }),
{
    if first_load && root_has_children {
        MountMode::Hydrate
    } else {
        MountMode::Replace
    }
}

/// The CSS `display` value for an element whose visibility signal holds `visible`.
pub fn display_value(visible: bool) -> (r: &'static str)
    ensures
        r@ == (if visible { ""@ } else { "none"@ }),
{
    if visible {
        ""
    } else {
        "none"
    }
}

fn push_attr(out: &mut String, name: &String, value: &String)
    ensures
        final(out)@ == old(out)@ + attr_html(name@, value@),
{
    push_char(out, ' ');
    out.append(name.as_str());
    push_char(out, '=');
    push_char(out, '"');
    out.append(value.as_str());
    push_char(out, '"');
    assert(final(out)@ =~= old(out)@ + attr_html(name@, value@));
}

/// Renders a node to HTML for server-side rendering.
pub fn render_to_string(vnode: &VNode) -> (r: String)
    ensures
        r@ == html(*vnode),
    decreases vnode,
{
    match vnode {
        VNode::Text(text) => text.clone(),
        VNode::Element(el) => {
            let mut out = String::new();
            push_char(&mut out, '<');
            out.append(el.tag.as_str());
            let ghost head = out@;
            let mut i: usize = 0;
            while i < el.attrs.len()
                invariant
                    i <= el.attrs.len(),
                    out@ == head + attrs_html(el.attrs@.take(i as int)),
                decreases el.attrs.len() - i,
            {
                push_attr(&mut out, &el.attrs[i].0, &el.attrs[i].1);
                assert(el.attrs@.take(i + 1).drop_last() =~= el.attrs@.take(i as int));
                i = i + 1;
            }
            assert(el.attrs@.take(i as int) =~= el.attrs@);
            let ghost head2 = out@;
            let mut j: usize = 0;
            while j < el.bound_attrs.len()
                invariant
                    j <= el.bound_attrs.len(),
                    out@ == head2 + bound_attrs_html(el.bound_attrs@.take(j as int)),
                decreases el.bound_attrs.len() - j,
            {
                let v = el.bound_attrs[j].1.get();
                push_attr(&mut out, &el.bound_attrs[j].0, &v);
                assert(el.bound_attrs@.take(j + 1).drop_last() =~= el.bound_attrs@.take(j as int));
                j = j + 1;
            }
            assert(el.bound_attrs@.take(j as int) =~= el.bound_attrs@);
            if let Some(sig) = &el.bound_show {
                if !sig.get() {
                    out.append(" style=\"display:none;\"");
                }
            }
            push_char(&mut out, '>');
            let ghost head3 = out@;
            if let Some(sig) = &el.bound_text {
                let v = sig.get();
                out.append(v.as_str());
            } else {
                let mut k: usize = 0;
                while k < el.children.len()
                    invariant
                        k <= el.children.len(),
                        *vnode == VNode::Element(*el),
                        out@ == head3 + html_seq(el.children@.take(k as int)),
                    decreases el.children.len() - k,
                {
                    proof {
                        assert(decreases_to!(*vnode => (*vnode)->Element_0));
                        assert(decreases_to!(*el => el.children));
                        assert(decreases_to!(el.children => el.children@));
                        assert(decreases_to!(el.children@ => el.children@[k as int]));
                    }
                    let part = render_to_string(&el.children[k]);
                    out.append(part.as_str());
                    assert(el.children@.take(k + 1).drop_last() =~= el.children@.take(k as int));
                    k = k + 1;
                }
                assert(el.children@.take(k as int) =~= el.children@);
            }
            push_char(&mut out, '<');
            push_char(&mut out, '/');
            out.append(el.tag.as_str());
            push_char(&mut out, '>');
            assert(out@ =~= html(*vnode));
            out
        },
    }
}

/// A new element with tag `tag` and nothing else, seen through its views.
pub(crate) fn plain(tag: &str) -> (e: VElement)
    ensures
        is_element(VNode::Element(e), tag@, seq![], 0, Map::empty()),
        e.attrs@.len() == 0,
        e.events@.len() == 0,
{
    let e = VNode::element(tag);
    assert(pair_views(e.attrs@) =~= seq![]);
    e
}

/// `<tag>text</tag>`
pub(crate) fn leaf(tag: &str, text: &str) -> (n: VNode)
    ensures
        html(n) == seq!['<'] + tag@ + seq!['>'] + text@ + seq!['<', '/'] + tag@ + seq!['>'],
        is_leaf(n, tag@, seq![], text@),
{
    let t = VNode::text(text);
    let e = VNode::element(tag).child(t);
    proof {
        lemma_html_plain(e);
        lemma_html_seq_push(Seq::<VNode>::empty(), t);
        assert(Seq::<VNode>::empty().push(t) =~= e.children@);
        assert(attrs_html(e.attrs@) == Seq::<char>::empty());
        assert(html_seq(Seq::<VNode>::empty()) == Seq::<char>::empty());
        assert(html(VNode::Element(e)) =~= seq!['<'] + tag@ + seq!['>'] + text@ + seq!['<', '/'] + tag@ + seq!['>']);
        assert(pair_views(e.attrs@) =~= seq![]);
        assert(e.children@[0] == t);
    }
    e.build()
}

/// Sets a new attribute (one that the element does not have yet).
pub(crate) fn with_attr(e: VElement, key: &str, val: &str) -> (r: VElement)
    requires
        forall|i: int| 0 <= i < e.attrs@.len() ==> e.attrs@[i].0@ != key@,
    ensures
        attrs_html(r.attrs@) == attrs_html(e.attrs@) + attr_html(key@, val@),
        pair_views(r.attrs@) == pair_views(e.attrs@).push((key@, val@)),
        forall|i: int| 0 <= i < r.attrs@.len() ==> (#[trigger] r.attrs@[i]).0@ == key@ || exists|j: int|
            0 <= j < e.attrs@.len() && e.attrs@[j].0@ == r.attrs@[i].0@,
        r.tag == e.tag,
        r.bound_attrs == e.bound_attrs,
        r.children == e.children,
        r.events == e.events,
        r.bound_text == e.bound_text,
        r.bound_show == e.bound_show,
        r.on_mount == e.on_mount,
        r.on_cleanup == e.on_cleanup,
{
    let r = e.attr(key, val);
    proof {
        let (k, v) = choose|k: String, v: String| k@ == key@ && v@ == val@ && r.attrs@ == upsert(e.attrs@, (k, v));
        crate::keyed::lemma_upsert_push(e.attrs@, (k, v));
        lemma_attrs_html_push(e.attrs@, (k, v));
        assert(pair_views(r.attrs@) =~= pair_views(e.attrs@).push((key@, val@)));
        assert forall|i: int| 0 <= i < r.attrs@.len() implies (#[trigger] r.attrs@[i]).0@ == key@ || exists|j: int|
            0 <= j < e.attrs@.len() && e.attrs@[j].0@ == r.attrs@[i].0@ by {
            if i < e.attrs@.len() {
                assert(r.attrs@[i] == e.attrs@[i]);
            }
        }
    }
    r
}

/// An element's children are rendered whatever its visibility signal
/// holds: without bound text, its HTML is its opening tag, then its
/// children's HTML in order, then `</tag>`; a false visibility signal only
/// adds ` style="display:none;"` at the end of the opening tag.
pub proof fn law_children_rendered(e: VElement)
    requires
        e.bound_text is None,
    ensures
        ({
            let open = seq!['<'] + e.tag@ + attrs_html(e.attrs@) + bound_attrs_html(e.bound_attrs@);
            let style = if (e.bound_show matches Some(s) && !s.value()) {
                " style=\"display:none;\""@
            } else {
                Seq::<char>::empty()
            };
            html(VNode::Element(e)) == open + style + seq!['>'] + html_seq(e.children@) + seq!['<', '/'] + e.tag@
                + seq!['>']
        }),
{
    let open = seq!['<'] + e.tag@ + attrs_html(e.attrs@) + bound_attrs_html(e.bound_attrs@);
    let style = if (e.bound_show matches Some(s) && !s.value()) {
        " style=\"display:none;\""@
    } else {
        Seq::<char>::empty()
    };
    assert(show_html(e.bound_show) == style);
    assert(html(VNode::Element(e)) =~= open + style + seq!['>'] + html_seq(e.children@) + seq!['<', '/'] + e.tag@
        + seq!['>']);
}

/// The children's HTML is each child's HTML, one after the other: the HTML
/// of the first `i` children followed by that of the rest.
pub proof fn law_html_seq_split(s: Seq<VNode>, i: int)
    requires
        0 <= i <= s.len(),
    ensures
        html_seq(s) == html_seq(s.take(i)) + html_seq(s.skip(i)),
    decreases s.len() - i,
{
    if i < s.len() {
        law_html_seq_split(s, i + 1);
        assert(s.take(i + 1).drop_last() =~= s.take(i));
        assert(s.take(i + 1).last() == s[i]);
        let rest = s.skip(i);
        assert(rest.len() > 0);
        lemma_html_seq_front(rest);
        assert(rest.skip(1) =~= s.skip(i + 1));
        assert(rest[0] == s[i]);
    } else {
        assert(s.take(i) =~= s);
        assert(s.skip(i) =~= Seq::<VNode>::empty());
    }
}

proof fn lemma_html_seq_front(s: Seq<VNode>)
    requires
        s.len() > 0,
    ensures
        html_seq(s) == html(s[0]) + html_seq(s.skip(1)),
    decreases s.len(),
{
    if s.len() == 1 {
        assert(s.drop_last() =~= Seq::<VNode>::empty());
        assert(s.skip(1) =~= Seq::<VNode>::empty());
    } else {
        lemma_html_seq_front(s.drop_last());
        assert(s.drop_last().skip(1) =~= s.skip(1).drop_last());
        assert(s.skip(1).last() == s.last());
        assert(s.drop_last()[0] == s[0]);
    }
}

/// Binding one more attribute appends its name and the signal's current
/// value, after the attributes bound before it.
pub proof fn law_bound_attrs_html_push(s: Seq<(String, Signal<String>)>, a: (String, Signal<String>))
    ensures
        bound_attrs_html(s.push(a)) == bound_attrs_html(s) + seq![' '] + a.0@ + seq!['=', '"'] + a.1.value()@ + seq!['"'],
{
    assert(s.push(a).drop_last() =~= s);
    assert(bound_attrs_html(s.push(a)) =~= bound_attrs_html(s) + seq![' '] + a.0@ + seq!['=', '"'] + a.1.value()@
        + seq!['"']);
}

/// The HTML of an element with no signal bindings.
pub proof fn lemma_html_plain(e: VElement)
    requires
        e.bound_attrs@.len() == 0,
        e.bound_text is None,
        e.bound_show is None,
    ensures
        html(VNode::Element(e)) == seq!['<'] + e.tag@ + attrs_html(e.attrs@) + seq!['>'] + html_seq(
            e.children@,
        ) + seq!['<', '/'] + e.tag@ + seq!['>'],
{
    assert(bound_attrs_html(e.bound_attrs@) == Seq::<char>::empty());
    assert(html(VNode::Element(e)) =~= seq!['<'] + e.tag@ + attrs_html(e.attrs@) + seq!['>'] + html_seq(
        e.children@,
    ) + seq!['<', '/'] + e.tag@ + seq!['>']);
}

/// Appending a node appends its HTML.
pub proof fn lemma_html_seq_push(s: Seq<VNode>, n: VNode)
    ensures
        html_seq(s.push(n)) == html_seq(s) + html(n),
{
    assert(s.push(n).drop_last() =~= s);
}

/// Appending an attribute appends its HTML.
pub proof fn lemma_attrs_html_push(s: Seq<(String, String)>, a: (String, String))
    ensures
        attrs_html(s.push(a)) == attrs_html(s) + attr_html(a.0@, a.1@),
{
    assert(s.push(a).drop_last() =~= s);
}

} // verus!
