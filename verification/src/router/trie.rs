//! A segment trie that maps a method and a path to a handler.
use vstd::prelude::*;
use crate::http::method::{Method, method_code};
use crate::router::model::{
    NodeView, empty_node, first_key, find_route, insert_route, is_param_segment,
    is_wildcard_segment, key_lookup, key_set, lemma_first_key_at, lemma_first_key_none,
    lemma_key_push, lemma_key_set, trie_wf, node_links_forward, lemma_first_key,
    lemma_wf_same_links, lemma_wf_new_node,
};
use crate::strmap::StrMap;
use crate::text::{chars_of, split_char, split_chars, string_from_chars, to_owned_string, views};

verus! {

// ───────────────────────── path segments ─────────────────────────

/// The pieces of `s` that are not empty, in order.
pub open spec fn nonempty(s: Seq<Seq<char>>) -> Seq<Seq<char>>
    decreases s.len(),
{
    if s.len() == 0 {
        s
    } else if s.last().len() > 0 {
        nonempty(s.drop_last()).push(s.last())
    } else {
        nonempty(s.drop_last())
    }
}

/// A path's segments: the non-empty pieces between slashes.
pub open spec fn route_segments(path: Seq<char>) -> Seq<Seq<char>> {
    nonempty(split_char(path, '/'))
}

/// The path `/s1/s2/.../sn` made of the segments `segs`.
pub open spec fn slash_path(segs: Seq<Seq<char>>) -> Seq<char>
    decreases segs.len(),
{
    if segs.len() == 0 {
        Seq::empty()
    } else {
        seq!['/'] + segs[0] + slash_path(segs.drop_first())
    }
}

/// Segments that are not empty and hold no `/`.
pub open spec fn plain_segments(segs: Seq<Seq<char>>) -> bool {
    forall|i: int|
        0 <= i < segs.len() ==> #[trigger] segs[i].len() > 0 && forall|j: int|
            0 <= j < segs[i].len() ==> segs[i][j] != '/'
}

/// Dropping the empty pieces of two runs of pieces is dropping them from
/// each.
proof fn lemma_nonempty_concat(a: Seq<Seq<char>>, b: Seq<Seq<char>>)
    ensures
        nonempty(a + b) == nonempty(a) + nonempty(b),
    decreases b.len(),
{
    if b.len() == 0 {
        assert(a + b =~= a);
        assert(nonempty(a) + nonempty(b) =~= nonempty(a));
    } else {
        lemma_nonempty_concat(a, b.drop_last());
        assert((a + b).drop_last() =~= a + b.drop_last());
        assert((a + b).last() == b.last());
        if b.last().len() > 0 {
            assert(nonempty(a) + nonempty(b.drop_last()).push(b.last()) =~= (nonempty(a)
                + nonempty(b.drop_last())).push(b.last()));
        }
    }
}

/// Pieces that are all non-empty are kept as they are.
proof fn lemma_nonempty_plain(segs: Seq<Seq<char>>)
    requires
        plain_segments(segs),
    ensures
        nonempty(segs) == segs,
    decreases segs.len(),
{
    if segs.len() > 0 {
        let d = segs.drop_last();
        assert forall|i: int| 0 <= i < d.len() implies #[trigger] d[i].len() > 0 && forall|j: int|
            0 <= j < d[i].len() ==> d[i][j] != '/' by {
            assert(d[i] == segs[i]);
            assert(segs[i].len() > 0);
        }
        lemma_nonempty_plain(d);
        assert(segs.last() == segs[segs.len() - 1]);
        assert(d.push(segs.last()) =~= segs);
    }
}

/// Splitting the first segment followed by the slashed rest gives the
/// segments back.
proof fn lemma_split_segments(segs: Seq<Seq<char>>)
    requires
        segs.len() >= 1,
        plain_segments(segs),
    ensures
        split_char(segs[0] + slash_path(segs.drop_first()), '/') == segs,
    decreases segs.len(),
{
    let s0 = segs[0];
    let tail = segs.drop_first();
    assert(s0.len() > 0);
    if tail.len() == 0 {
        assert(slash_path(tail) == Seq::<char>::empty());
        assert(s0 + slash_path(tail) =~= s0);
        crate::text::lemma_split_char_absent(s0, '/');
        assert(segs =~= seq![s0]);
    } else {
        assert forall|i: int| 0 <= i < tail.len() implies #[trigger] tail[i].len() > 0 && forall|
            j: int,
        | 0 <= j < tail[i].len() ==> tail[i][j] != '/' by {
            assert(tail[i] == segs[i + 1]);
            assert(segs[i + 1].len() > 0);
        }
        lemma_split_segments(tail);
        let rest = tail[0] + slash_path(tail.drop_first());
        assert(slash_path(tail) == seq!['/'] + tail[0] + slash_path(tail.drop_first()));
        assert(s0 + slash_path(tail) =~= s0 + seq!['/'] + rest);
        crate::text::lemma_split_char_after(s0, rest, '/');
        assert(seq![s0] + tail =~= segs);
    }
}

/// A path is split into exactly its segments, character for character: for
/// any non-empty segments without `/`, the path `/s1/.../sn` has the
/// segments `s1`, ..., `sn` (no case or other change), so a route and a
/// request path line up segment by segment and a parameter binds the
/// request's segment as written.
pub proof fn lemma_path_segments_exact(segs: Seq<Seq<char>>)
    requires
        plain_segments(segs),
    ensures
        route_segments(slash_path(segs)) == segs,
{
    if segs.len() == 0 {
        assert(slash_path(segs) == Seq::<char>::empty());
        crate::text::lemma_split_char_absent(Seq::<char>::empty(), '/');
        assert(split_char(Seq::<char>::empty(), '/') == seq![Seq::<char>::empty()]);
        assert(seq![Seq::<char>::empty()].last().len() == 0);
        assert(seq![Seq::<char>::empty()].drop_last() =~= Seq::<Seq<char>>::empty());
        assert(nonempty(seq![Seq::<char>::empty()]) == nonempty(Seq::<Seq<char>>::empty()));
    } else {
        lemma_split_segments(segs);
        let rest = segs[0] + slash_path(segs.drop_first());
        assert(slash_path(segs) =~= Seq::<char>::empty() + seq!['/'] + rest);
        crate::text::lemma_split_char_after(Seq::<char>::empty(), rest, '/');
        let pieces = seq![Seq::<char>::empty()] + segs;
        assert(split_char(slash_path(segs), '/') == pieces);
        lemma_nonempty_concat(seq![Seq::<char>::empty()], segs);
        assert(seq![Seq::<char>::empty()].drop_last() =~= Seq::<Seq<char>>::empty());
        assert(seq![Seq::<char>::empty()].last().len() == 0);
        assert(seq![Seq::<char>::empty()].drop_last() =~= Seq::<Seq<char>>::empty());
        assert(nonempty(seq![Seq::<char>::empty()]) == nonempty(Seq::<Seq<char>>::empty()));
        lemma_nonempty_plain(segs);
        assert(Seq::<Seq<char>>::empty() + segs =~= segs);
    }
}

/// The non-empty pieces of `path` between slashes.
pub fn path_segments(path: &str) -> (r: Vec<Vec<char>>)
    ensures
        views(r@) == route_segments(path@),
{
    let chars = chars_of(path);
    let pieces = split_chars(&chars, '/');
    let mut out: Vec<Vec<char>> = Vec::new();
    let mut i: usize = 0;
    while i < pieces.len()
        invariant
            i <= pieces.len(),
            views(pieces@) == split_char(path@, '/'),
            views(out@) == nonempty(views(pieces@).subrange(0, i as int)),
        decreases pieces.len() - i,
    {
        let ghost before = views(pieces@).subrange(0, i as int);
        let ghost after = views(pieces@).subrange(0, i as int + 1);
        assert(after.drop_last() =~= before);
        assert(after.last() == pieces@[i as int]@);
        if pieces[i].len() > 0 {
            out.push(pieces[i].clone());
            assert(views(out@) =~= nonempty(before).push(after.last()));
        }
        i = i + 1;
    }
    assert(views(pieces@).subrange(0, i as int) =~= views(pieces@));
    out
}

/// Whether a segment is `*`.
fn is_star(seg: &Vec<char>) -> (r: bool)
    ensures
        r == is_wildcard_segment(seg@),
{
    if seg.len() == 1 && seg[0] == '*' {
        assert(seg@ =~= seq!['*']);
        true
    } else {
        false
    }
}

/// Whether a segment starts with `:`.
fn is_param(seg: &Vec<char>) -> (r: bool)
    ensures
        r == is_param_segment(seg@),
{
    seg.len() > 0 && seg[0] == ':'
}

/// The characters of `seg` after the first.
fn tail_of(seg: &Vec<char>) -> (r: Vec<char>)
    requires
        seg.len() > 0,
    ensures
        r@ == seg@.skip(1),
{
    let mut r: Vec<char> = Vec::new();
    let mut i: usize = 1;
    while i < seg.len()
        invariant
            1 <= i <= seg.len(),
            r@ == seg@.subrange(1, i as int),
        decreases seg.len() - i,
    {
        r.push(seg[i]);
        i = i + 1;
        assert(r@ =~= seg@.subrange(1, i as int));
    }
    assert(r@ =~= seg@.skip(1));
    r
}

/// Whether two character vectors are equal.
fn same_chars(a: &Vec<char>, b: &Vec<char>) -> (r: bool)
    ensures
        r == (a@ == b@),
{
    if a.len() != b.len() {
        return false;
    }
    let mut i: usize = 0;
    while i < a.len()
        invariant
            a.len() == b.len(),
            i <= a.len(),
            forall|j: int| 0 <= j < i ==> a@[j] == b@[j],
        decreases a.len() - i,
    {
        if a[i] != b[i] {
            return false;
        }
        i = i + 1;
    }
    assert(a@ =~= b@);
    true
}

// ───────────────────────── nodes ─────────────────────────

/// One node of the trie.
pub struct RouteNode<H> {
    children: Vec<(Vec<char>, usize)>,
    param_child: Option<(Vec<char>, usize)>,
    wildcard_handler: Option<H>,
    handlers: Vec<(u8, H)>,
}

/// The children of a node, by their segments.
pub open spec fn child_views(cs: Seq<(Vec<char>, usize)>) -> Seq<(Seq<char>, int)> {
    cs.map_values(|p: (Vec<char>, usize)| (p.0@, p.1 as int))
}

impl<H> RouteNode<H> {
    /// What the node holds.
    pub closed spec fn view(&self) -> NodeView<H> {
        NodeView {
            children: child_views(self.children@),
            param: match self.param_child {
                Some((name, c)) => Some((name@, c as int)),
                None => None,
            },
            wildcard: self.wildcard_handler,
            handlers: self.handlers@,
        }
    }

    fn new() -> (r: Self)
        ensures
            r.view() == empty_node::<H>(),
    {
        let r = RouteNode {
            children: Vec::new(),
            param_child: None,
            wildcard_handler: None,
            handlers: Vec::new(),
        };
        assert(child_views(r.children@) =~= Seq::empty());
        r
    }
}

/// The nodes of a trie, as views.
pub open spec fn node_views<H>(ns: Seq<RouteNode<H>>) -> Seq<NodeView<H>> {
    ns.map_values(|n: RouteNode<H>| n.view())
}

/// The position of the child of `node` under `seg`.
fn child_position<H>(node: &RouteNode<H>, seg: &Vec<char>) -> (r: Option<usize>)
    ensures
        match r {
            Some(c) => key_lookup(node.view().children, seg@) == Some(c as int),
            None => key_lookup(node.view().children, seg@) is None,
        },
{
    let ghost cs = node.view().children;
    let mut i: usize = 0;
    while i < node.children.len()
        invariant
            i <= node.children.len(),
            cs == child_views(node.children@),
            forall|j: int| 0 <= j < i ==> #[trigger] cs[j].0 != seg@,
        decreases node.children.len() - i,
    {
        if same_chars(&node.children[i].0, seg) {
            proof {
                lemma_first_key_at(cs, seg@, i as int);
            }
            return Some(node.children[i].1);
        }
        i = i + 1;
    }
    proof {
        lemma_first_key_none(cs, seg@);
    }
    None
}

/// The handler of `node` for method number `m`.
fn handler_for<H>(node: &RouteNode<H>, m: u8) -> (r: Option<&H>)
    ensures
        match r {
            Some(h) => key_lookup(node.view().handlers, m) == Some(*h),
            None => key_lookup(node.view().handlers, m) is None,
        },
{
    let ghost hs = node.view().handlers;
    let mut i: usize = 0;
    while i < node.handlers.len()
        invariant
            i <= node.handlers.len(),
            hs == node.handlers@,
            forall|j: int| 0 <= j < i ==> #[trigger] hs[j].0 != m,
        decreases node.handlers.len() - i,
    {
        if node.handlers[i].0 == m {
            proof {
                lemma_first_key_at(hs, m, i as int);
            }
            return Some(&node.handlers[i].1);
        }
        i = i + 1;
    }
    proof {
        lemma_first_key_none(hs, m);
    }
    None
}

/// The position of the handler of `hs` for method number `m`.
fn handler_position<H>(hs: &Vec<(u8, H)>, m: u8) -> (r: Option<usize>)
    ensures
        match r {
            Some(i) => first_key(hs@, m) == Some(i as int),
            None => first_key(hs@, m) is None,
        },
{
    let mut i: usize = 0;
    while i < hs.len()
        invariant
            i <= hs.len(),
            forall|j: int| 0 <= j < i ==> #[trigger] hs@[j].0 != m,
        decreases hs.len() - i,
    {
        if hs[i].0 == m {
            proof {
                lemma_first_key_at(hs@, m, i as int);
            }
            return Some(i);
        }
        i = i + 1;
    }
    proof {
        lemma_first_key_none(hs@, m);
    }
    None
}

// ───────────────────────── the router ─────────────────────────

/// The parameters bound by a lookup, by their text.
pub open spec fn string_values(m: Map<Seq<char>, String>) -> Map<Seq<char>, Seq<char>> {
    m.map_values(|v: String| v@)
}

/// The nodes of a route trie; node 0 is the root.
pub struct RouteTrie<H> {
    nodes: Vec<RouteNode<H>>,
}

impl<H> RouteTrie<H> {
    /// The nodes, as views.
    pub closed spec fn view(&self) -> Seq<NodeView<H>> {
        node_views(self.nodes@)
    }

    /// A trie holding only an empty root.
    fn new() -> (r: Self)
        ensures
            r@ == seq![empty_node::<H>()],
            trie_wf(r@),
    {
        let mut nodes: Vec<RouteNode<H>> = Vec::new();
        nodes.push(RouteNode::new());
        assert(node_views(nodes@) =~= seq![empty_node::<H>()]);
        let r = RouteTrie { nodes };
        assert(node_links_forward(r@, 0));
        r
    }

    /// Adds `handler` for method number `m` under the path `segs`.
    fn insert(&mut self, segs: &Vec<Vec<char>>, m: u8, handler: H)
        requires
            trie_wf(old(self)@),
        ensures
            final(self)@ == insert_route(old(self)@, 0, views(segs@), m, handler),
            trie_wf(final(self)@),
    {
        let ghost target = insert_route(self@, 0, views(segs@), m, handler);
        let mut cur: usize = 0;
        let mut k: usize = 0;
        assert(views(segs@).skip(0) =~= views(segs@));
        loop
            invariant
                k <= segs.len(),
                trie_wf(self@),
                cur < self.nodes.len(),
                insert_route(self@, cur as int, views(segs@).skip(k as int), m, handler)
                    == target,
                target == insert_route(old(self)@, 0, views(segs@), m, handler),
            decreases segs.len() - k,
        {
            let ghost ns = self@;
            let ghost node = ns[cur as int];
            let ghost rest = views(segs@).skip(k as int);
            if k == segs.len() {
                assert(rest.len() == 0);
                let pos = handler_position(&self.nodes[cur].handlers, m);
                proof {
                    lemma_first_key(node.handlers, m);
                }
                match pos {
                    Some(i) => {
                        self.nodes[cur].handlers.set(i, (m, handler));
                    },
                    None => {
                        self.nodes[cur].handlers.push((m, handler));
                    },
                }
                let ghost updated = NodeView {
                    children: node.children,
                    param: node.param,
                    wildcard: node.wildcard,
                    handlers: key_set(node.handlers, m, handler),
                };
                assert(self@ =~= ns.update(cur as int, updated));
                proof {
                    lemma_wf_same_links(ns, cur as int, updated);
                }
                return;
            }
            let seg = &segs[k];
            assert(rest[0] == seg@);
            assert(rest.skip(1) =~= views(segs@).skip(k as int + 1));
            if is_star(seg) {
                self.nodes[cur].wildcard_handler = Some(handler);
                let ghost updated = NodeView {
                    children: node.children,
                    param: node.param,
                    wildcard: Some(handler),
                    handlers: node.handlers,
                };
                assert(self@ =~= ns.update(cur as int, updated));
                proof {
                    lemma_wf_same_links(ns, cur as int, updated);
                }
                return;
            }
            if is_param(seg) {
                match &self.nodes[cur].param_child {
                    Some((_, c)) => {
                        assert(node_links_forward(ns, cur as int));
                        cur = *c;
                    },
                    None => {
                        let n = self.nodes.len();
                        let name = tail_of(seg);
                        self.nodes.push(RouteNode::new());
                        self.nodes[cur].param_child = Some((name, n));
                        let ghost linked = NodeView {
                            children: node.children,
                            param: Some((seg@.skip(1), n as int)),
                            wildcard: node.wildcard,
                            handlers: node.handlers,
                        };
                        assert(self@ =~= ns.update(cur as int, linked).push(empty_node()));
                        proof {
                            lemma_wf_new_node(ns, cur as int, linked);
                        }
                        cur = n;
                    },
                }
            } else {
                match child_position(&self.nodes[cur], seg) {
                    Some(c) => {
                        proof {
                            lemma_first_key(node.children, seg@);
                            assert(node_links_forward(ns, cur as int));
                        }
                        cur = c;
                    },
                    None => {
                        let n = self.nodes.len();
                        self.nodes.push(RouteNode::new());
                        self.nodes[cur].children.push((seg.clone(), n));
                        let ghost linked = NodeView {
                            children: node.children.push((seg@, n as int)),
                            param: node.param,
                            wildcard: node.wildcard,
                            handlers: node.handlers,
                        };
                        assert(child_views(self.nodes@[cur as int].children@) =~= linked.children);
                        assert(self@ =~= ns.update(cur as int, linked).push(empty_node()));
                        proof {
                            lemma_wf_new_node(ns, cur as int, linked);
                        }
                        cur = n;
                    },
                }
            }
            k = k + 1;
        }
    }
}

impl<H> RouteTrie<H> {
    /// Looks up `segs[k..]` for method number `m` from node `cur`, binding
    /// parameters in `params` as it goes.
    fn find_from(
        &self,
        cur: usize,
        segs: &Vec<Vec<char>>,
        k: usize,
        m: u8,
        params: &mut StrMap<String>,
    ) -> (r: Option<&H>)
        requires
            trie_wf(self@),
            cur < self@.len(),
            k <= segs.len(),
        ensures
            ({
                let res = find_route(
                    self@,
                    cur as int,
                    views(segs@).skip(k as int),
                    m,
                    string_values(old(params)@),
                );
                &&& match r {
                    Some(h) => res.0 == Some(*h),
                    None => res.0 is None,
                }
                &&& string_values(final(params)@) == res.1
            }),
        decreases segs.len() - k,
    {
        let ghost ns = self@;
        let ghost rest = views(segs@).skip(k as int);
        let ghost p0 = string_values(params@);
        let node = &self.nodes[cur];
        assert(node.view() == ns[cur as int]);
        if let Some(h) = &node.wildcard_handler {
            return Some(h);
        }
        if k == segs.len() {
            assert(rest.len() == 0);
            return handler_for(node, m);
        }
        let seg = &segs[k];
        assert(rest[0] == seg@);
        assert(rest.skip(1) =~= views(segs@).skip(k as int + 1));
        proof {
            assert(node_links_forward(ns, cur as int));
            lemma_first_key(ns[cur as int].children, seg@);
        }
        match child_position(node, seg) {
            Some(c) => {
                if let Some(h) = self.find_from(c, segs, k + 1, m, params) {
                    return Some(h);
                }
            },
            None => {},
        }
        match &node.param_child {
            Some((name, c)) => {
                let ghost p1 = string_values(params@);
                let key = string_from_chars(name);
                let value = string_from_chars(seg);
                params.insert(key, value);
                assert(string_values(params@) =~= p1.insert(name@, seg@));
                match self.find_from(*c, segs, k + 1, m, params) {
                    Some(h) => Some(h),
                    None => {
                        let ghost p2 = string_values(params@);
                        let key = string_from_chars(name);
                        params.remove(key.as_str());
                        assert(string_values(params@) =~= p2.remove(name@));
                        None
                    },
                }
            },
            None => None,
        }
    }
}

/// Routes requests to handlers of type `H` by method and path, and
/// websocket upgrades to handlers of type `W` by exact path.
pub struct Router<H, W> {
    root: RouteTrie<H>,
    ws_routes: StrMap<W>,
}

impl<H, W> Router<H, W> {
    #[verifier::type_invariant]
    closed spec fn well_formed(&self) -> bool {
        trie_wf(self.root@)
    }

    /// The route trie.
    pub closed spec fn trie(&self) -> Seq<NodeView<H>> {
        self.root@
    }

    /// The websocket routes.
    pub closed spec fn ws(&self) -> Map<Seq<char>, W> {
        self.ws_routes@
    }

    /// A router with no routes.
    pub fn new() -> (r: Self)
        ensures
            r.trie() == seq![empty_node::<H>()],
            trie_wf(r.trie()),
            r.ws() == Map::<Seq<char>, W>::empty(),
    {
        Router { root: RouteTrie::new(), ws_routes: StrMap::new() }
    }

    /// Routes `method` on `path` to `handler`. A segment `:name` matches
    /// any one segment and binds it to `name`; a segment `*` matches the
    /// rest of the path, for every method.
    pub fn add(&mut self, method: Method, path: &str, handler: H)
        ensures
            final(self).trie() == insert_route(
                old(self).trie(),
                0,
                route_segments(path@),
                method_code(method),
                handler,
            ),
            trie_wf(final(self).trie()),
            final(self).ws() == old(self).ws(),
    {
        proof {
            use_type_invariant(&*self);
        }
        let segs = path_segments(path);
        let m = method.code();
        let mut t = RouteTrie::new();
        std::mem::swap(&mut t, &mut self.root);
        t.insert(&segs, m, handler);
        self.root = t;
    }

    /// The handler for `method` on `path`, with the parameters bound on the
    /// way. Literal segments are tried before parameters; a `*` route
    /// takes any path below it.
    pub fn find(&self, method: Method, path: &str) -> (r: Option<(&H, StrMap<String>)>)
        ensures
            ({
                let res = find_route(
                    self.trie(),
                    0,
                    route_segments(path@),
                    method_code(method),
                    Map::empty(),
                );
                match r {
                    Some((h, ps)) => res.0 == Some(*h) && string_values(ps@) == res.1,
                    None => res.0 is None,
                }
            }),
    {
        proof {
            use_type_invariant(self);
        }
        let segs = path_segments(path);
        let mut params: StrMap<String> = StrMap::new();
        assert(string_values(params@) =~= Map::empty());
        assert(views(segs@).skip(0) =~= views(segs@));
        match self.root.find_from(0, &segs, 0, method.code(), &mut params) {
            Some(h) => Some((h, params)),
            None => None,
        }
    }

    /// Routes `GET` on `path` to `handler`.
    pub fn get(&mut self, path: &str, handler: H)
        ensures
            final(self).trie() == insert_route(
                old(self).trie(),
                0,
                route_segments(path@),
                method_code(Method::GET),
                handler,
            ),
            final(self).ws() == old(self).ws(),
    {
        self.add(Method::GET, path, handler);
    }

    /// Routes `POST` on `path` to `handler`.
    pub fn post(&mut self, path: &str, handler: H)
        ensures
            final(self).trie() == insert_route(
                old(self).trie(),
                0,
                route_segments(path@),
                method_code(Method::POST),
                handler,
            ),
            final(self).ws() == old(self).ws(),
    {
        self.add(Method::POST, path, handler);
    }

    /// Routes `PUT` on `path` to `handler`.
    pub fn put(&mut self, path: &str, handler: H)
        ensures
            final(self).trie() == insert_route(
                old(self).trie(),
                0,
                route_segments(path@),
                method_code(Method::PUT),
                handler,
            ),
            final(self).ws() == old(self).ws(),
    {
        self.add(Method::PUT, path, handler);
    }

    /// Routes `DELETE` on `path` to `handler`.
    pub fn delete(&mut self, path: &str, handler: H)
        ensures
            final(self).trie() == insert_route(
                old(self).trie(),
                0,
                route_segments(path@),
                method_code(Method::DELETE),
                handler,
            ),
            final(self).ws() == old(self).ws(),
    {
        self.add(Method::DELETE, path, handler);
    }

    /// Routes websocket upgrades on exactly `path` to `handler`.
    pub fn add_ws(&mut self, path: &str, handler: W)
        ensures
            final(self).ws() == old(self).ws().insert(path@, handler),
            final(self).trie() == old(self).trie(),
    {
        proof {
            use_type_invariant(&*self);
        }
        let mut ws: StrMap<W> = StrMap::new();
        std::mem::swap(&mut ws, &mut self.ws_routes);
        ws.insert(to_owned_string(path), handler);
        self.ws_routes = ws;
    }

    /// A copy of the websocket handler for exactly `path`.
    pub fn find_ws(&self, path: &str) -> (r: Option<W>) where W: Clone
        ensures
            match r {
                Some(w) => self.ws().contains_key(path@) && cloned(self.ws()[path@], w),
                None => !self.ws().contains_key(path@),
            },
    {
        match self.ws_routes.get(path) {
            Some(w) => Some(w.clone()),
            None => None,
        }
    }
}

impl<H, W> Default for Router<H, W> {
    fn default() -> (r: Self)
        ensures
            r.trie() == seq![empty_node::<H>()],
            r.ws() == Map::<Seq<char>, W>::empty(),
    {
        Self::new()
    }
}

} // verus!
