//! Client-side routing: route tables, path matching with `:name` parameters
//! and `*` wildcards, route guards, server-side route rendering, and query
//! strings.

use vstd::prelude::*;
use crate::keyed::{keyed, keys_unique, insert_keyed, upsert, upsert_view, lemma_upsert_view};
use crate::signal::Signal;
use crate::text::{chars_of, has_prefix, join, join_from, split, split_chars, string_of_range, views};
use crate::vdom::{html, is_leaf, leaf, render_to_string, VNode};

verus! {

/// A route's page: the host's component `component` and, for a guarded
/// route, the host's guard `guard.0` and the path `guard.1` to go to when
/// the guard refuses.
#[derive(Debug)]
pub struct RouteInfo {
    pub component: usize,
    pub guard: Option<(usize, String)>,
}

/// What a route stands for, over plain values.
pub struct RouteView {
    pub component: usize,
    pub guard: Option<(usize, Seq<char>)>,
}

/// A guard over plain values.
pub open spec fn guard_view(g: Option<(usize, String)>) -> Option<(usize, Seq<char>)> {
    match g {
        Some((n, p)) => Some((n, p@)),
        None => None,
    }
}

pub open spec fn route_view(r: RouteInfo) -> RouteView {
    RouteView { component: r.component, guard: guard_view(r.guard) }
}

fn clone_guard(g: &Option<(usize, String)>) -> (r: Option<(usize, String)>)
    ensures
        guard_view(r) == guard_view(*g),
{
    match g {
        Some((n, p)) => Some((*n, p.clone())),
        None => None,
    }
}

/// A table of routes from path patterns to pages, mounted at the element
/// with id `root_id`.
pub struct Router {
    root_id: String,
    routes: Vec<(String, RouteInfo)>,
}

/// Parameters as a map from name to value.
pub open spec fn params_map(v: Seq<(String, String)>) -> Map<Seq<char>, Seq<char>> {
    keyed(v).map_values(|s: String| s@)
}

/// The segment `*`.
pub open spec fn is_wildcard(seg: Seq<char>) -> bool {
    seg == seq!['*']
}

/// How the route segments `rs` match the URL segments `us` from position
/// `i` on, with the parameters `params` collected so far. A `*` segment
/// takes the rest of the URL (joined with `/`) as the parameter `wildcard`;
/// a `:name` segment takes the URL segment as the parameter `name`; any
/// other segment must equal the URL segment. After the segments are
/// through, the route matches when it ends in `*` or has as many segments as
/// the URL.
pub open spec fn match_segments(
    rs: Seq<Seq<char>>,
    us: Seq<Seq<char>>,
    i: int,
    params: Map<Seq<char>, Seq<char>>,
) -> Option<Map<Seq<char>, Seq<char>>>
    decreases rs.len() - i,
{
    if i < 0 || i >= rs.len() {
        if (rs.len() > 0 && is_wildcard(rs.last())) || rs.len() == us.len() {
            Some(params)
        } else {
            None
        }
    } else if is_wildcard(rs[i]) {
        let p = params.insert("wildcard"@, join(us.skip(i), seq!['/']));
        if is_wildcard(rs.last()) || rs.len() == us.len() {
            Some(p)
        } else {
            None
        }
    } else if i >= us.len() {
        None
    } else if has_prefix(rs[i], seq![':']) {
        match_segments(rs, us, i + 1, params.insert(rs[i].drop_first(), us[i]))
    } else if rs[i] != us[i] {
        None
    } else {
        match_segments(rs, us, i + 1, params)
    }
}

/// The parameters that the route pattern `route` extracts from the path
/// `url`, or `None` when it does not match.
pub open spec fn route_params(route: Seq<char>, url: Seq<char>) -> Option<Map<Seq<char>, Seq<char>>> {
    match_segments(split(route, '/'), split(url, '/'), 0, Map::empty())
}

/// Whether the segment is `*`.
fn segment_is_wildcard(seg: &String) -> (r: bool)
    ensures
        r == is_wildcard(seg@),
{
    let cs = chars_of(seg.as_str());
    if cs.len() == 1 && cs[0] == '*' {
        assert(cs@ =~= seq!['*']);
        true
    } else {
        false
    }
}

/// Matches the path `url_path` against the route pattern `route_path`,
/// returning the extracted parameters when it matches.
pub fn match_route(route_path: &str, url_path: &str) -> (r: Option<Vec<(String, String)>>)
    ensures
        r is Some <==> route_params(route_path@, url_path@) is Some,
        r matches Some(v) ==> params_map(v@) == route_params(route_path@, url_path@)->0
            && keys_unique(v@),
{
    let rcs = chars_of(route_path);
    let ucs = chars_of(url_path);
    let rsegs = split_chars(&rcs, '/');
    let usegs = split_chars(&ucs, '/');
    let ghost rs = views(rsegs@);
    let ghost us = views(usegs@);
    proof {
        crate::text::lemma_split_nonempty(rcs@, '/');
        crate::text::lemma_split_nonempty(ucs@, '/');
    }
    let mut params: Vec<(String, String)> = Vec::new();
    let mut i: usize = 0;
    assert(params_map(params@) =~= Map::<Seq<char>, Seq<char>>::empty());
    while i < rsegs.len()
        invariant
            rs == views(rsegs@),
            us == views(usegs@),
            rs == split(route_path@, '/'),
            us == split(url_path@, '/'),
            rs.len() >= 1,
            us.len() >= 1,
            i <= rsegs.len(),
            i <= usegs.len(),
            keys_unique(params@),
            route_params(route_path@, url_path@) == match_segments(rs, us, i as int, params_map(params@)),
        decreases rsegs.len() - i,
    {
        let last = rsegs.len() - 1;
        if segment_is_wildcard(&rsegs[i]) {
            let rest = join_from(&usegs, i, "/");
            assert("/"@ =~= seq!['/']) by {
                reveal_strlit("/");
            }
            let ghost before = params_map(params@);
            insert_keyed(&mut params, String::from_str("wildcard"), rest);
            assert(params_map(params@) =~= before.insert("wildcard"@, join(us.skip(i as int), seq!['/'])));
            let ends_wild = segment_is_wildcard(&rsegs[last]);
            if ends_wild || rsegs.len() == usegs.len() {
                return Some(params);
            } else {
                return None;
            }
        }
        if i >= usegs.len() {
            return None;
        }
        let seg = chars_of(rsegs[i].as_str());
        assert(seg@ == rs[i as int]);
        if seg.len() > 0 && seg[0] == ':' {
            assert(seg@.subrange(0, 1) =~= seq![':']);
            let name = string_of_range(&seg, 1, seg.len());
            assert(name@ =~= rs[i as int].drop_first());
            let value = usegs[i].clone();
            let ghost before = params_map(params@);
            insert_keyed(&mut params, name, value);
            assert(params_map(params@) =~= before.insert(rs[i as int].drop_first(), us[i as int]));
        } else {
            assert(seg.len() > 0 ==> seg@.subrange(0, 1)[0] != ':');
            if rsegs[i] != usegs[i] {
                return None;
            }
        }
        i = i + 1;
    }
    let ends_wild = segment_is_wildcard(&rsegs[rsegs.len() - 1]);
    if ends_wild || rsegs.len() == usegs.len() {
        Some(params)
    } else {
        None
    }
}

/// The route table as pairs of pattern and page, in registration order.
pub open spec fn table_view(s: Seq<(String, RouteInfo)>) -> Seq<(Seq<char>, RouteView)> {
    s.map_values(|e: (String, RouteInfo)| (e.0@, route_view(e.1)))
}

/// The first route, from position `i` on, whose pattern matches `url`:
/// its position and the parameters it extracts.
pub open spec fn first_match(
    routes: Seq<(Seq<char>, RouteView)>,
    url: Seq<char>,
    i: int,
) -> Option<(int, Map<Seq<char>, Seq<char>>)>
    decreases routes.len() - i,
{
    if i < 0 || i >= routes.len() {
        None
    } else {
        match route_params(routes[i].0, url) {
            Some(p) => Some((i, p)),
            None => first_match(routes, url, i + 1),
        }
    }
}

/// A route that matched a path: its page and the parameters it extracted.
#[derive(Debug)]
pub struct RouteMatch {
    pub component: usize,
    pub guard: Option<(usize, String)>,
    pub params: Vec<(String, String)>,
}

/// What to do after navigating to a path.
#[derive(Debug)]
pub enum NavAction {
    /// No route matches: show the not-found page.
    NotFound,
    /// Show the host's component with this number.
    Render(usize),
    /// The route's guard refused: navigate to this path instead.
    Redirect(String),
}

impl RouteMatch {
    /// The action for this match, given whether its guard (if it has one)
    /// allows the navigation.
    pub fn action(&self, guard_allows: bool) -> (r: NavAction)
        ensures
            match self.guard {
                Some((_, redirect)) => if guard_allows {
                    r == NavAction::Render(self.component)
                } else {
                    r matches NavAction::Redirect(p) && p@ == redirect@
                },
                None => r == NavAction::Render(self.component),
            },
    {
        match &self.guard {
            Some((_, redirect)) => if guard_allows {
                NavAction::Render(self.component)
            } else {
                NavAction::Redirect(redirect.clone())
            },
            None => NavAction::Render(self.component),
        }
    }
}

/// How many redirects in a row navigation follows before it gives up and
/// shows the not-found page (a guard that redirects to itself would
/// otherwise never settle).
pub const MAX_REDIRECTS: usize = 8;

/// The next step of navigation to a path: `resolved` is what the path
/// resolved to, `guard_allows` whether the route's guard (if it has one)
/// lets the navigation through, and `redirects` how many redirects led to
/// this path.
pub fn next_step(resolved: &Option<RouteMatch>, guard_allows: bool, redirects: usize) -> (r: NavAction)
    ensures
        match resolved {
            None => r is NotFound,
            Some(m) => match m.guard {
                Some((_, to)) => if guard_allows {
                    r == NavAction::Render(m.component)
                } else if redirects < MAX_REDIRECTS {
                    r matches NavAction::Redirect(p) && p@ == to@
                } else {
                    r is NotFound
                },
                None => r == NavAction::Render(m.component),
            },
        },
{
    match resolved {
        None => NavAction::NotFound,
        Some(m) => match m.action(guard_allows) {
            NavAction::Redirect(p) => if redirects < MAX_REDIRECTS {
                NavAction::Redirect(p)
            } else {
                NavAction::NotFound
            },
            other => other,
        },
    }
}

/// Whether the guard with number `g` lets navigation through, given the
/// guards' answers in order (a guard without an answer refuses).
pub open spec fn allows(guards: Seq<bool>, g: usize) -> bool {
    g < guards.len() && guards[g as int]
}

/// The page that server-side rendering shows for a path.
pub enum ServerPage {
    NotFound,
    /// The component, the path it is shown for, and the parameters.
    Page(usize, Seq<char>, Map<Seq<char>, Seq<char>>),
}

/// The parameters a pattern extracts from itself (a route looked up by its
/// own pattern).
pub open spec fn exact_params(path: Seq<char>) -> Map<Seq<char>, Seq<char>> {
    match route_params(path, path) {
        Some(p) => p,
        None => Map::empty(),
    }
}

/// The route for `path`: the one registered for exactly that path, if there
/// is one; otherwise the first route, in registration order, whose pattern
/// matches it. With the parameters it extracts.
pub open spec fn lookup_route(
    table: Seq<(Seq<char>, RouteView)>,
    map: Map<Seq<char>, RouteView>,
    path: Seq<char>,
) -> Option<(RouteView, Map<Seq<char>, Seq<char>>)> {
    if map.dom().contains(path) {
        Some((map[path], exact_params(path)))
    } else {
        match first_match(table, path, 0) {
            Some((i, p)) => Some((table[i].1, p)),
            None => None,
        }
    }
}

/// The page for `path`: the route that `lookup_route` finds; a refusing
/// guard sends to its redirect path, at most `hops` times in a row.
pub open spec fn server_page(
    table: Seq<(Seq<char>, RouteView)>,
    map: Map<Seq<char>, RouteView>,
    path: Seq<char>,
    guards: Seq<bool>,
    hops: nat,
) -> ServerPage
    decreases hops,
{
    match lookup_route(table, map, path) {
        None => ServerPage::NotFound,
        Some((route, p)) => match route.guard {
            Some((g, to)) => if allows(guards, g) {
                ServerPage::Page(route.component, path, p)
            } else if hops > 0 {
                server_page(table, map, to, guards, (hops - 1) as nat)
            } else {
                ServerPage::NotFound
            },
            None => ServerPage::Page(route.component, path, p),
        },
    }
}

/// A path whose guard refuses shows what its redirect target shows, with
/// one redirect fewer to spare.
pub proof fn law_refused_guard_redirects(
    table: Seq<(Seq<char>, RouteView)>,
    map: Map<Seq<char>, RouteView>,
    path: Seq<char>,
    guards: Seq<bool>,
    hops: nat,
    g: usize,
    to: Seq<char>,
)
    requires
        lookup_route(table, map, path) matches Some((route, _)) && route.guard == Some((g, to)),
        !allows(guards, g),
        hops > 0,
    ensures
        server_page(table, map, path, guards, hops) == server_page(table, map, to, guards, (hops - 1) as nat),
{
}

/// A path registered exactly is shown by its own route, whatever other
/// patterns also match it.
pub proof fn law_exact_route_wins(
    table: Seq<(Seq<char>, RouteView)>,
    map: Map<Seq<char>, RouteView>,
    path: Seq<char>,
)
    requires
        map.dom().contains(path),
    ensures
        lookup_route(table, map, path) == Some((map[path], exact_params(path))),
{
}

/// The page shown when no route matches: `<h1>404 Not Found</h1>`.
pub fn not_found_page() -> (n: VNode)
    ensures
        is_leaf(n, "h1"@, seq![], "404 Not Found"@),
        html(n) == "<h1>404 Not Found</h1>"@,
{
    let n = leaf("h1", "404 Not Found");
    proof {
        reveal_strlit("<h1>404 Not Found</h1>");
        reveal_strlit("404 Not Found");
        reveal_strlit("h1");
        assert(html(n) =~= "<h1>404 Not Found</h1>"@);
    }
    n
}

impl Router {
    /// The id of the element the router renders into.
    pub closed spec fn root_id_view(&self) -> Seq<char> {
        self.root_id@
    }

    /// The routes, in registration order.
    pub closed spec fn table(&self) -> Seq<(Seq<char>, RouteView)> {
        table_view(self.routes@)
    }

    /// The routes as a map from pattern to page.
    pub closed spec fn route_map(&self) -> Map<Seq<char>, RouteView> {
        keyed(self.routes@).map_values(|r: RouteInfo| route_view(r))
    }

    /// No pattern occurs twice in the table.
    pub closed spec fn wf(&self) -> bool {
        keys_unique(self.routes@)
    }

    /// The table and the map agree: each registered pattern maps to its
    /// page, and each pattern in the map is registered.
    pub proof fn lemma_table_map(&self)
        requires
            self.wf(),
        ensures
            forall|i: int| 0 <= i < self.table().len() ==> #[trigger] self.route_map().dom().contains(self.table()[i].0)
                && self.route_map()[self.table()[i].0] == self.table()[i].1,
            forall|p: Seq<char>| self.route_map().dom().contains(p) ==> exists|i: int|
                0 <= i < self.table().len() && #[trigger] self.table()[i].0 == p,
    {
        assert forall|i: int| 0 <= i < self.table().len() implies #[trigger] self.route_map().dom().contains(self.table()[i].0)
            && self.route_map()[self.table()[i].0] == self.table()[i].1 by {
            crate::keyed::lemma_keyed_present(self.routes@, i);
        }
        assert forall|p: Seq<char>| self.route_map().dom().contains(p) implies exists|i: int|
            0 <= i < self.table().len() && #[trigger] self.table()[i].0 == p by {
            if forall|i: int| 0 <= i < self.routes@.len() ==> self.routes@[i].0@ != p {
                crate::keyed::lemma_keyed_absent(self.routes@, p);
            }
            let i = choose|i: int| 0 <= i < self.routes@.len() && self.routes@[i].0@ == p;
            assert(self.table()[i].0 == p);
        }
    }

    /// An empty router that renders into the element with id `root_id`.
    pub fn new(root_id: &str) -> (r: Router)
        ensures
            r.root_id_view() == root_id@,
            r.table().len() == 0,
            r.route_map() == Map::<Seq<char>, RouteView>::empty(),
            r.wf(),
    {
        let r = Router { root_id: String::from_str(root_id), routes: Vec::new() };
        assert(r.route_map() =~= Map::<Seq<char>, RouteView>::empty());
        r
    }

    fn insert(self, path: &str, info: RouteInfo) -> (r: Router)
        ensures
            r.route_map() == self.route_map().insert(path@, route_view(info)),
            r.table() == upsert_view(self.table(), (path@, route_view(info))),
            self.wf() ==> r.wf(),
            r.root_id_view() == self.root_id_view(),
    {
        let mut s = self;
        let key = String::from_str(path);
        let ghost iv = route_view(info);
        let ghost e = (key, info);
        proof {
            let f = |x: (String, RouteInfo)| (x.0@, route_view(x.1));
            lemma_upsert_view(s.routes@, e, f);
            assert(table_view(s.routes@) == s.routes@.map_values(f));
            assert(table_view(upsert(s.routes@, e)) == upsert(s.routes@, e).map_values(f));
        }
        insert_keyed(&mut s.routes, key, info);
        assert(s.route_map() =~= self.route_map().insert(path@, iv));
        s
    }

    /// Adds the route `path` to the page `component`; a route with the same
    /// pattern is replaced.
    pub fn route(self, path: &str, component: usize) -> (r: Router)
        ensures
            r.route_map() == self.route_map().insert(path@, RouteView { component, guard: None }),
            r.table() == upsert_view(self.table(), (path@, RouteView { component, guard: None })),
            self.wf() ==> r.wf(),
            r.root_id_view() == self.root_id_view(),
    {
        self.insert(path, RouteInfo { component, guard: None })
    }

    /// Adds the route `path` to the page `component`, guarded by the host's
    /// guard `guard`: when the guard refuses, navigation goes to `redirect`.
    /// A route with the same pattern is replaced.
    pub fn guarded_route(self, path: &str, component: usize, guard: usize, redirect: &str) -> (r: Router)
        ensures
            r.route_map() == self.route_map().insert(
                path@,
                RouteView { component, guard: Some((guard, redirect@)) },
            ),
            r.table() == upsert_view(
                self.table(),
                (path@, RouteView { component, guard: Some((guard, redirect@)) }),
            ),
            self.wf() ==> r.wf(),
            r.root_id_view() == self.root_id_view(),
    {
        self.insert(path, RouteInfo { component, guard: Some((guard, String::from_str(redirect))) })
    }

    /// The id of the element the router renders into.
    pub fn root_id(&self) -> (r: &String)
        ensures
            r@ == self.root_id_view(),
    {
        &self.root_id
    }

    /// The first route, in registration order, whose pattern matches `path`,
    /// with the parameters it extracts.
    pub fn resolve(&self, path: &str) -> (r: Option<RouteMatch>)
        ensures
            match first_match(self.table(), path@, 0) {
                None => r is None,
                Some((i, p)) => r matches Some(m) && m.component == self.table()[i].1.component
                    && guard_view(m.guard) == self.table()[i].1.guard && params_map(m.params@) == p
                    && keys_unique(m.params@),
            },
    {
        let mut i: usize = 0;
        while i < self.routes.len()
            invariant
                i <= self.routes.len(),
                first_match(self.table(), path@, 0) == first_match(self.table(), path@, i as int),
            decreases self.routes.len() - i,
        {
            assert(self.table()[i as int].0 == self.routes@[i as int].0@);
            match match_route(self.routes[i].0.as_str(), path) {
                Some(params) => {
                    let info = &self.routes[i].1;
                    return Some(
                        RouteMatch { component: info.component, guard: clone_guard(&info.guard), params },
                    );
                },
                None => {},
            }
            i = i + 1;
        }
        None
    }

    /// The route for `path`: the one registered for exactly that path if
    /// there is one, otherwise the first whose pattern matches, in
    /// registration order; with the parameters it extracts.
    pub fn lookup(&self, path: &str) -> (r: Option<RouteMatch>)
        ensures
            match lookup_route(self.table(), self.route_map(), path@) {
                None => r is None,
                Some((route, p)) => r matches Some(m) && m.component == route.component && guard_view(m.guard)
                    == route.guard && params_map(m.params@) == p && keys_unique(m.params@),
            },
    {
        let key = String::from_str(path);
        match crate::keyed::find_last(&self.routes, &key) {
            Some(j) => {
                proof {
                    crate::keyed::lemma_keyed_present(self.routes@, j as int);
                }
                let params = match match_route(path, path) {
                    Some(v) => v,
                    None => {
                        let e: Vec<(String, String)> = Vec::new();
                        assert(params_map(e@) =~= Map::<Seq<char>, Seq<char>>::empty());
                        e
                    },
                };
                let info = &self.routes[j].1;
                assert(self.route_map()[path@] == route_view(*info));
                Some(RouteMatch { component: info.component, guard: clone_guard(&info.guard), params })
            },
            None => {
                proof {
                    crate::keyed::lemma_keyed_absent(self.routes@, path@);
                }
                self.resolve(path)
            },
        }
    }

    /// Server-side rendering: the HTML of the page for `request_path`,
    /// found by `lookup` (the route registered for exactly that path, else
    /// the first matching one), its guard answered by `guards`, redirects
    /// followed, its component being given
    /// a navigation signal holding the path shown and the route's
    /// parameters; or the not-found page.
    pub fn render_route_to_string<F: Fn(usize, Signal<String>, Vec<(String, String)>) -> VNode>(
        &self,
        request_path: &str,
        guards: &Vec<bool>,
        component: F,
    ) -> (r: String)
        requires
            forall|c: usize, nav: Signal<String>, ps: Vec<(String, String)>| call_requires(component, (c, nav, ps)),
        ensures
            match server_page(self.table(), self.route_map(), request_path@, guards@, MAX_REDIRECTS as nat) {
                ServerPage::NotFound => r@ == "<h1>404 Not Found</h1>"@,
                ServerPage::Page(c, path, params) => exists|nav: Signal<String>, ps: Vec<(String, String)>, v: VNode|
                    #![trigger call_ensures(component, (c, nav, ps), v)]
                    nav.value()@ == path && nav.listeners().len() == 0 && params_map(ps@) == params && keys_unique(
                        ps@,
                    ) && call_ensures(component, (c, nav, ps), v) && r@ == html(v),
            },
    {
        let ghost target = server_page(self.table(), self.route_map(), request_path@, guards@, MAX_REDIRECTS as nat);
        let mut path = String::from_str(request_path);
        let mut hops: usize = 0;
        while hops <= MAX_REDIRECTS
            invariant
                hops <= MAX_REDIRECTS,
                target == server_page(self.table(), self.route_map(), request_path@, guards@, MAX_REDIRECTS as nat),
                target == server_page(self.table(), self.route_map(), path@, guards@, (MAX_REDIRECTS - hops) as nat),
                forall|c: usize, nav: Signal<String>, ps: Vec<(String, String)>| call_requires(component, (c, nav, ps)),
            decreases MAX_REDIRECTS - hops,
        {
            let resolved = self.lookup(path.as_str());
            let allowed = match &resolved {
                Some(m) => match &m.guard {
                    Some((g, _)) => *g < guards.len() && guards[*g],
                    None => true,
                },
                None => true,
            };
            match next_step(&resolved, allowed, hops) {
                NavAction::Render(c) => {
                    match resolved {
                        Some(m) => {
                            let nav = crate::signal::use_state(path.clone());
                            let ghost ps = m.params;
                            let v = component(c, nav, m.params);
                            let r = render_to_string(&v);
                            assert(target == ServerPage::Page(c, path@, params_map(ps@)));
                            assert(keys_unique(ps@));
                            assert(call_ensures(component, (c, nav, ps), v));
                            assert(target->0 == c && target->1 == path@ && target->2 == params_map(ps@));
                            return r;
                        },
                        None => {
                            return String::from_str("<h1>404 Not Found</h1>");
                        },
                    }
                },
                NavAction::Redirect(to) => {
                    path = to;
                    hops = hops + 1;
                },
                NavAction::NotFound => {
                    return String::from_str("<h1>404 Not Found</h1>");
                },
            }
        }
        String::from_str("<h1>404 Not Found</h1>")
    }
}

/// Position of the first `c` in `s`, or the length of `s` when there is none.
pub open spec fn first_index(s: Seq<char>, c: char) -> int
    decreases s.len(),
{
    if s.len() == 0 {
        0
    } else if s[0] == c {
        0
    } else {
        1 + first_index(s.drop_first(), c)
    }
}

/// The key of a `key=value` pair: everything before the first `=`.
pub open spec fn pair_key(p: Seq<char>) -> Seq<char> {
    p.take(first_index(p, '='))
}

/// The value of a `key=value` pair: everything after the first `=`, or
/// nothing when there is no `=`.
pub open spec fn pair_value(p: Seq<char>) -> Seq<char> {
    if first_index(p, '=') < p.len() {
        p.skip(first_index(p, '=') + 1)
    } else {
        Seq::<char>::empty()
    }
}

/// The map that `&`-separated pairs stand for: empty pairs are skipped and a
/// later pair overrides an earlier one with the same key.
pub open spec fn pairs_map(ps: Seq<Seq<char>>) -> Map<Seq<char>, Seq<char>>
    decreases ps.len(),
{
    if ps.len() == 0 {
        Map::empty()
    } else if ps.last().len() == 0 {
        pairs_map(ps.drop_last())
    } else {
        pairs_map(ps.drop_last()).insert(pair_key(ps.last()), pair_value(ps.last()))
    }
}

/// The parameters of a URL query string such as `?sort=asc&page=2`; a string
/// that does not begin with `?` has none.
pub open spec fn query_map(search: Seq<char>) -> Map<Seq<char>, Seq<char>> {
    if search.len() > 0 && search[0] == '?' {
        pairs_map(split(search.drop_first(), '&'))
    } else {
        Map::empty()
    }
}

proof fn lemma_first_index(s: Seq<char>, c: char)
    ensures
        0 <= first_index(s, c) <= s.len(),
        first_index(s, c) < s.len() ==> s[first_index(s, c)] == c,
        forall|k: int| 0 <= k < first_index(s, c) ==> s[k] != c,
    decreases s.len(),
{
    if s.len() > 0 && s[0] != c {
        lemma_first_index(s.drop_first(), c);
        assert forall|k: int| 0 <= k < first_index(s, c) implies s[k] != c by {
            if k > 0 {
                assert(s[k] == s.drop_first()[k - 1]);
            }
        }
    }
}

proof fn lemma_first_index_at(s: Seq<char>, c: char, i: int)
    requires
        0 <= i <= s.len(),
        i < s.len() ==> s[i] == c,
        forall|k: int| 0 <= k < i ==> s[k] != c,
    ensures
        first_index(s, c) == i,
    decreases s.len(),
{
    if s.len() > 0 && i > 0 {
        lemma_first_index_at(s.drop_first(), c, i - 1);
    }
}

/// Parses a URL query string: `?sort=asc&page=2` gives `sort` = `asc` and
/// `page` = `2`.
pub fn parse_query(search: &str) -> (r: Vec<(String, String)>)
    ensures
        params_map(r@) == query_map(search@),
        keys_unique(r@),
{
    let cs = chars_of(search);
    let mut query: Vec<(String, String)> = Vec::new();
    assert(params_map(query@) =~= Map::<Seq<char>, Seq<char>>::empty());
    if cs.len() > 0 && cs[0] == '?' {
        let rest = string_of_range(&cs, 1, cs.len());
        let rcs = chars_of(rest.as_str());
        let pairs = split_chars(&rcs, '&');
        assert(rcs@ =~= search@.drop_first());
        let mut i: usize = 0;
        while i < pairs.len()
            invariant
                i <= pairs.len(),
                views(pairs@) == split(search@.drop_first(), '&'),
                keys_unique(query@),
                params_map(query@) == pairs_map(views(pairs@).take(i as int)),
            decreases pairs.len() - i,
        {
            let ghost ps = views(pairs@);
            assert(ps.take(i + 1).drop_last() =~= ps.take(i as int));
            assert(ps.take(i + 1).last() == pairs@[i as int]@);
            let pcs = chars_of(pairs[i].as_str());
            if pcs.len() > 0 {
                let mut k: usize = 0;
                while k < pcs.len() && pcs[k] != '='
                    invariant
                        k <= pcs.len(),
                        forall|m: int| 0 <= m < k ==> pcs@[m] != '=',
                    decreases pcs.len() - k,
                {
                    k = k + 1;
                }
                proof {
                    lemma_first_index_at(pcs@, '=', k as int);
                }
                let key = string_of_range(&pcs, 0, k);
                let value = if k < pcs.len() {
                    string_of_range(&pcs, k + 1, pcs.len())
                } else {
                    String::new()
                };
                assert(key@ =~= pair_key(pcs@));
                assert(value@ =~= pair_value(pcs@));
                let ghost before = params_map(query@);
                insert_keyed(&mut query, key, value);
                assert(params_map(query@) =~= before.insert(pair_key(pcs@), pair_value(pcs@)));
            }
            i = i + 1;
        }
        assert(views(pairs@).take(i as int) =~= views(pairs@));
    }
    query
}

/// A segment that is neither `*` nor `:name`.
pub open spec fn is_static_segment(seg: Seq<char>) -> bool {
    !is_wildcard(seg) && !has_prefix(seg, seq![':'])
}

proof fn lemma_match_static(rs: Seq<Seq<char>>, us: Seq<Seq<char>>, i: int, params: Map<Seq<char>, Seq<char>>)
    requires
        0 <= i <= rs.len(),
        rs.len() > 0,
        forall|k: int| 0 <= k < rs.len() ==> is_static_segment(#[trigger] rs[k]),
    ensures
        match_segments(rs, us, i, params) == (if rs.len() == us.len() && (forall|k: int|
            i <= k < rs.len() ==> #[trigger] rs[k] == us[k]) {
            Some(params)
        } else {
            None
        }),
    decreases rs.len() - i,
{
    assert(is_static_segment(rs.last()));
    if i < rs.len() {
        assert(is_static_segment(rs[i]));
        if i < us.len() && rs[i] == us[i] {
            lemma_match_static(rs, us, i + 1, params);
            if rs.len() == us.len() && (forall|k: int| i + 1 <= k < rs.len() ==> #[trigger] rs[k] == us[k]) {
                assert forall|k: int| i <= k < rs.len() implies #[trigger] rs[k] == us[k] by {
                    if k == i {
                    }
                }
            }
        }
    }
}

proof fn lemma_match_keeps(
    rs: Seq<Seq<char>>,
    us: Seq<Seq<char>>,
    i: int,
    params: Map<Seq<char>, Seq<char>>,
    name: Seq<char>,
)
    requires
        0 <= i,
        params.dom().contains(name),
        name != "wildcard"@,
        forall|j: int| i <= j < rs.len() && has_prefix(rs[j], seq![':']) ==> #[trigger] rs[j].drop_first() != name,
    ensures
        match_segments(rs, us, i, params) matches Some(p) ==> p.dom().contains(name) && p[name] == params[name],
    decreases rs.len() - i,
{
    if 0 <= i < rs.len() && !is_wildcard(rs[i]) && i < us.len() {
        if has_prefix(rs[i], seq![':']) {
            lemma_match_keeps(rs, us, i + 1, params.insert(rs[i].drop_first(), us[i]), name);
        } else {
            lemma_match_keeps(rs, us, i + 1, params, name);
        }
    }
}

proof fn lemma_match_binds(
    rs: Seq<Seq<char>>,
    us: Seq<Seq<char>>,
    i: int,
    params: Map<Seq<char>, Seq<char>>,
    k: int,
)
    requires
        0 <= i <= k < rs.len(),
        has_prefix(rs[k], seq![':']),
        rs[k].drop_first() != "wildcard"@,
        forall|j: int| i <= j < k ==> !is_wildcard(#[trigger] rs[j]),
        forall|j: int| k < j < rs.len() && has_prefix(rs[j], seq![':']) ==> #[trigger] rs[j].drop_first() != rs[k].drop_first(),
    ensures
        match_segments(rs, us, i, params) matches Some(p) ==> k < us.len() && p.dom().contains(rs[k].drop_first())
            && p[rs[k].drop_first()] == us[k],
    decreases rs.len() - i,
{
    assert(!is_wildcard(rs[i])) by {
        if i == k {
            assert(rs[k].subrange(0, 1) == seq![':']);
            assert(rs[k].subrange(0, 1)[0] == rs[k][0]);
            assert(rs[k][0] == ':');
            if rs[k] == seq!['*'] {
                assert(seq!['*'][0] == '*');
            }
        }
    }
    if i < us.len() {
        if i < k {
            if has_prefix(rs[i], seq![':']) {
                lemma_match_binds(rs, us, i + 1, params.insert(rs[i].drop_first(), us[i]), k);
            } else {
                lemma_match_binds(rs, us, i + 1, params, k);
            }
        } else {
            lemma_match_keeps(rs, us, k + 1, params.insert(rs[k].drop_first(), us[k]), rs[k].drop_first());
        }
    }
}

proof fn lemma_match_wildcard_value(
    rs: Seq<Seq<char>>,
    us: Seq<Seq<char>>,
    i: int,
    params: Map<Seq<char>, Seq<char>>,
    w: int,
)
    requires
        0 <= i <= w < rs.len(),
        is_wildcard(rs[w]),
        forall|j: int| i <= j < w ==> !is_wildcard(#[trigger] rs[j]),
    ensures
        match_segments(rs, us, i, params) matches Some(p) ==> p.dom().contains("wildcard"@) && p["wildcard"@]
            == join(us.skip(w), seq!['/']),
    decreases rs.len() - i,
{
    if i < w && i < us.len() {
        if has_prefix(rs[i], seq![':']) {
            lemma_match_wildcard_value(rs, us, i + 1, params.insert(rs[i].drop_first(), us[i]), w);
        } else {
            lemma_match_wildcard_value(rs, us, i + 1, params, w);
        }
    }
}

/// Whenever a route matches a path, each `:name` segment before the first
/// `*` binds `name` to the path's segment at its place (unless a later
/// segment uses the same name, or the name is `wildcard`), and a `*` adds
/// `wildcard` holding the rest of the path joined with `/` to the
/// parameters collected before it.
pub proof fn law_route_bindings(route: Seq<char>, url: Seq<char>)
    ensures
        route_params(route, url) matches Some(p) ==> {
            let rs = split(route, '/');
            let us = split(url, '/');
            &&& forall|k: int|
                #![trigger rs[k].drop_first()]
                0 <= k < rs.len() && has_prefix(rs[k], seq![':']) && rs[k].drop_first() != "wildcard"@ && (forall|j: int|
                    0 <= j < k ==> !is_wildcard(#[trigger] rs[j])) && (forall|j: int|
                    k < j < rs.len() && has_prefix(rs[j], seq![':']) ==> #[trigger] rs[j].drop_first()
                        != rs[k].drop_first()) ==> k < us.len() && p.dom().contains(rs[k].drop_first())
                    && p[rs[k].drop_first()] == us[k]
            &&& forall|w: int|
                0 <= w < rs.len() && #[trigger] is_wildcard(rs[w]) && (forall|j: int|
                    0 <= j < w ==> !is_wildcard(#[trigger] rs[j])) ==> p.dom().contains("wildcard"@)
                    && p["wildcard"@] == join(us.skip(w), seq!['/'])
        },
{
    let rs = split(route, '/');
    let us = split(url, '/');
    if route_params(route, url) is Some {
        assert forall|k: int|
            #![trigger rs[k].drop_first()]
            0 <= k < rs.len() && has_prefix(rs[k], seq![':']) && rs[k].drop_first() != "wildcard"@ && (forall|j: int|
                0 <= j < k ==> !is_wildcard(#[trigger] rs[j])) && (forall|j: int|
                k < j < rs.len() && has_prefix(rs[j], seq![':']) ==> #[trigger] rs[j].drop_first()
                    != rs[k].drop_first()) implies k < us.len() && route_params(route, url)->0.dom().contains(
            rs[k].drop_first(),
        ) && route_params(route, url)->0[rs[k].drop_first()] == us[k] by {
            lemma_match_binds(rs, us, 0, Map::empty(), k);
        }
        assert forall|w: int|
            0 <= w < rs.len() && #[trigger] is_wildcard(rs[w]) && (forall|j: int|
                0 <= j < w ==> !is_wildcard(#[trigger] rs[j])) implies route_params(route, url)->0.dom().contains(
            "wildcard"@,
        ) && route_params(route, url)->0["wildcard"@] == join(us.skip(w), seq!['/']) by {
            lemma_match_wildcard_value(rs, us, 0, Map::empty(), w);
        }
    }
}

/// A route pattern without `:name` and `*` segments matches exactly the
/// identical path, and extracts no parameter.
pub proof fn law_static_route(route: Seq<char>, url: Seq<char>)
    requires
        forall|k: int| 0 <= k < split(route, '/').len() ==> is_static_segment(#[trigger] split(route, '/')[k]),
    ensures
        route_params(route, url) is Some <==> route == url,
        route_params(route, url) is Some ==> route_params(route, url)->0 == Map::<Seq<char>, Seq<char>>::empty(),
{
    let rs = split(route, '/');
    let us = split(url, '/');
    crate::text::lemma_split_nonempty(route, '/');
    lemma_match_static(rs, us, 0, Map::empty());
    crate::text::lemma_join_split(route, '/');
    crate::text::lemma_join_split(url, '/');
    if rs.len() == us.len() && (forall|k: int| 0 <= k < rs.len() ==> #[trigger] rs[k] == us[k]) {
        assert(rs =~= us);
    }
}

/// The parameters that the `:name` segments of `rs` take from `us`, from
/// position `i` on, added to `params` in order (a later segment with the
/// same name overrides).
pub open spec fn param_bindings(
    rs: Seq<Seq<char>>,
    us: Seq<Seq<char>>,
    i: int,
    params: Map<Seq<char>, Seq<char>>,
) -> Map<Seq<char>, Seq<char>>
    decreases rs.len() - i,
{
    if i < 0 || i >= rs.len() {
        params
    } else if has_prefix(rs[i], seq![':']) {
        param_bindings(rs, us, i + 1, params.insert(rs[i].drop_first(), us[i]))
    } else {
        param_bindings(rs, us, i + 1, params)
    }
}

proof fn lemma_match_params(rs: Seq<Seq<char>>, us: Seq<Seq<char>>, i: int, params: Map<Seq<char>, Seq<char>>)
    requires
        0 <= i <= rs.len(),
        rs.len() > 0,
        forall|k: int| 0 <= k < rs.len() ==> !is_wildcard(#[trigger] rs[k]),
    ensures
        match_segments(rs, us, i, params) == (if rs.len() == us.len() && (forall|k: int|
            i <= k < rs.len() && is_static_segment(#[trigger] rs[k]) ==> rs[k] == us[k]) {
            Some(param_bindings(rs, us, i, params))
        } else {
            None
        }),
    decreases rs.len() - i,
{
    assert(!is_wildcard(rs.last()));
    if i < rs.len() {
        assert(!is_wildcard(rs[i]));
        if i < us.len() {
            if has_prefix(rs[i], seq![':']) {
                lemma_match_params(rs, us, i + 1, params.insert(rs[i].drop_first(), us[i]));
                assert(!is_static_segment(rs[i]));
            } else {
                lemma_match_params(rs, us, i + 1, params);
            }
            if rs.len() == us.len() && (forall|k: int| i + 1 <= k < rs.len() && is_static_segment(#[trigger] rs[k]) ==> rs[k] == us[k]) && (is_static_segment(rs[i]) ==> rs[i] == us[i]) {
                assert forall|k: int| i <= k < rs.len() && is_static_segment(#[trigger] rs[k]) implies rs[k] == us[k] by {
                    if k == i {
                    }
                }
            }
        }
    }
}

proof fn lemma_param_bindings(rs: Seq<Seq<char>>, us: Seq<Seq<char>>, i: int, params: Map<Seq<char>, Seq<char>>, k: int)
    requires
        0 <= i <= k < rs.len(),
        has_prefix(rs[k], seq![':']),
        forall|j: int| k < j < rs.len() && has_prefix(rs[j], seq![':']) ==> #[trigger] rs[j].drop_first() != rs[k].drop_first(),
    ensures
        param_bindings(rs, us, i, params).dom().contains(rs[k].drop_first()),
        param_bindings(rs, us, i, params)[rs[k].drop_first()] == us[k],
    decreases rs.len() - i,
{
    if i < k {
        if has_prefix(rs[i], seq![':']) {
            lemma_param_bindings(rs, us, i + 1, params.insert(rs[i].drop_first(), us[i]), k);
        } else {
            lemma_param_bindings(rs, us, i + 1, params, k);
        }
    } else {
        lemma_param_bindings_keep(rs, us, i + 1, params.insert(rs[k].drop_first(), us[k]), rs[k].drop_first());
    }
}

proof fn lemma_param_bindings_keep(rs: Seq<Seq<char>>, us: Seq<Seq<char>>, i: int, params: Map<Seq<char>, Seq<char>>, name: Seq<char>)
    requires
        0 <= i,
        params.dom().contains(name),
        forall|j: int| i <= j < rs.len() && has_prefix(rs[j], seq![':']) ==> #[trigger] rs[j].drop_first() != name,
    ensures
        param_bindings(rs, us, i, params).dom().contains(name),
        param_bindings(rs, us, i, params)[name] == params[name],
    decreases rs.len() - i,
{
    if i < rs.len() {
        if has_prefix(rs[i], seq![':']) {
            lemma_param_bindings_keep(rs, us, i + 1, params.insert(rs[i].drop_first(), us[i]), name);
        } else {
            lemma_param_bindings_keep(rs, us, i + 1, params, name);
        }
    }
}

proof fn lemma_param_bindings_dom(rs: Seq<Seq<char>>, us: Seq<Seq<char>>, i: int, params: Map<Seq<char>, Seq<char>>, name: Seq<char>)
    requires
        0 <= i,
        param_bindings(rs, us, i, params).dom().contains(name),
    ensures
        params.dom().contains(name) || exists|j: int| i <= j < rs.len() && has_prefix(rs[j], seq![':'])
            && #[trigger] rs[j].drop_first() == name,
    decreases rs.len() - i,
{
    if i < rs.len() {
        if has_prefix(rs[i], seq![':']) {
            lemma_param_bindings_dom(rs, us, i + 1, params.insert(rs[i].drop_first(), us[i]), name);
        } else {
            lemma_param_bindings_dom(rs, us, i + 1, params, name);
        }
    }
}

/// A route pattern without `*` matches a path exactly when they have as
/// many segments and every segment other than a `:name` one is equal; each
/// `:name` then takes the path's segment at its place (the last such place
/// for a name used twice), and no other parameter is extracted.
pub proof fn law_param_route(route: Seq<char>, url: Seq<char>)
    requires
        forall|k: int| 0 <= k < split(route, '/').len() ==> !is_wildcard(#[trigger] split(route, '/')[k]),
    ensures
        route_params(route, url) is Some <==> (split(route, '/').len() == split(url, '/').len() && forall|k: int|
            0 <= k < split(route, '/').len() && is_static_segment(#[trigger] split(route, '/')[k]) ==> split(
                route,
                '/',
            )[k] == split(url, '/')[k]),
        route_params(route, url) is Some ==> forall|k: int|
            0 <= k < split(route, '/').len() && has_prefix(split(route, '/')[k], seq![':']) && (forall|j: int|
                k < j < split(route, '/').len() && has_prefix(split(route, '/')[j], seq![':'])
                    ==> #[trigger] split(route, '/')[j].drop_first() != split(route, '/')[k].drop_first())
                ==> route_params(route, url)->0.dom().contains(#[trigger] split(route, '/')[k].drop_first())
                && route_params(route, url)->0[split(route, '/')[k].drop_first()] == split(url, '/')[k],
        route_params(route, url) is Some ==> forall|name: Seq<char>|
            #[trigger] route_params(route, url)->0.dom().contains(name) ==> exists|k: int|
                0 <= k < split(route, '/').len() && has_prefix(split(route, '/')[k], seq![':'])
                    && #[trigger] split(route, '/')[k].drop_first() == name,
{
    let rs = split(route, '/');
    let us = split(url, '/');
    crate::text::lemma_split_nonempty(route, '/');
    lemma_match_params(rs, us, 0, Map::empty());
    if route_params(route, url) is Some {
        assert forall|k: int|
            0 <= k < rs.len() && has_prefix(rs[k], seq![':']) && (forall|j: int|
                k < j < rs.len() && has_prefix(rs[j], seq![':']) ==> #[trigger] rs[j].drop_first() != rs[k].drop_first())
            implies route_params(route, url)->0.dom().contains(#[trigger] rs[k].drop_first())
                && route_params(route, url)->0[rs[k].drop_first()] == us[k] by {
            lemma_param_bindings(rs, us, 0, Map::empty(), k);
        }
        assert forall|name: Seq<char>| #[trigger] route_params(route, url)->0.dom().contains(name) implies exists|k: int|
            0 <= k < rs.len() && has_prefix(rs[k], seq![':']) && #[trigger] rs[k].drop_first() == name by {
            lemma_param_bindings_dom(rs, us, 0, Map::empty(), name);
        }
    }
}

proof fn lemma_match_wildcard(rs: Seq<Seq<char>>, us: Seq<Seq<char>>, i: int, params: Map<Seq<char>, Seq<char>>)
    requires
        0 <= i < rs.len(),
        i <= us.len(),
        is_wildcard(rs.last()),
        forall|k: int| 0 <= k < rs.len() - 1 ==> is_static_segment(#[trigger] rs[k]),
    ensures
        match_segments(rs, us, i, params) == (if rs.len() - 1 <= us.len() && (forall|k: int|
            i <= k < rs.len() - 1 ==> #[trigger] rs[k] == us[k]) {
            Some(params.insert("wildcard"@, join(us.skip(rs.len() - 1), seq!['/'])))
        } else {
            None
        }),
    decreases rs.len() - i,
{
    if i < rs.len() - 1 {
        assert(is_static_segment(rs[i]));
        if i < us.len() && rs[i] == us[i] {
            lemma_match_wildcard(rs, us, i + 1, params);
            if rs.len() - 1 <= us.len() && (forall|k: int| i + 1 <= k < rs.len() - 1 ==> #[trigger] rs[k] == us[k]) {
                assert forall|k: int| i <= k < rs.len() - 1 implies #[trigger] rs[k] == us[k] by {
                    if k == i {
                    }
                }
            }
        }
    }
}

/// A route pattern made of literal segments then a final `*` matches a path
/// exactly when the path's segments begin with the literal ones; the
/// parameter `wildcard` then holds the rest of the path's segments joined
/// with `/`.
pub proof fn law_wildcard_route(route: Seq<char>, url: Seq<char>)
    requires
        is_wildcard(split(route, '/').last()),
        forall|k: int| 0 <= k < split(route, '/').len() - 1 ==> is_static_segment(#[trigger] split(route, '/')[k]),
    ensures
        route_params(route, url) is Some <==> (split(route, '/').len() - 1 <= split(url, '/').len() && forall|k: int|
            0 <= k < split(route, '/').len() - 1 ==> #[trigger] split(route, '/')[k] == split(url, '/')[k]),
        route_params(route, url) is Some ==> route_params(route, url)->0 == Map::<Seq<char>, Seq<char>>::empty().insert(
            "wildcard"@,
            join(split(url, '/').skip(split(route, '/').len() - 1), seq!['/']),
        ),
{
    crate::text::lemma_split_nonempty(route, '/');
    crate::text::lemma_split_nonempty(url, '/');
    lemma_match_wildcard(split(route, '/'), split(url, '/'), 0, Map::empty());
}

} // verus!
