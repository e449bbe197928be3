//! The route trie as a mathematical object: a sequence of nodes, each
//! naming its children by position, and the two operations on it.
use vstd::prelude::*;

verus! {

// ───────────────────────── keyed sequences ─────────────────────────

/// The first position whose key is `k`.
pub open spec fn first_key<K, V>(s: Seq<(K, V)>, k: K) -> Option<int>
    decreases s.len(),
{
    if s.len() == 0 {
        None
    } else if s[0].0 == k {
        Some(0)
    } else {
        match first_key(s.skip(1), k) {
            Some(i) => Some(i + 1),
            None => None,
        }
    }
}

/// The value under the first occurrence of key `k`.
pub open spec fn key_lookup<K, V>(s: Seq<(K, V)>, k: K) -> Option<V> {
    match first_key(s, k) {
        Some(i) => Some(s[i].1),
        None => None,
    }
}

/// `s` with the value under `k` replaced by `v`, or `(k, v)` appended.
pub open spec fn key_set<K, V>(s: Seq<(K, V)>, k: K, v: V) -> Seq<(K, V)> {
    match first_key(s, k) {
        Some(i) => s.update(i, (k, v)),
        None => s.push((k, v)),
    }
}

/// `first_key` is the least position holding the key.
pub proof fn lemma_first_key<K, V>(s: Seq<(K, V)>, k: K)
    ensures
        match first_key(s, k) {
            Some(i) => 0 <= i < s.len() && s[i].0 == k && forall|j: int|
                0 <= j < i ==> #[trigger] s[j].0 != k,
            None => forall|j: int| 0 <= j < s.len() ==> #[trigger] s[j].0 != k,
        },
    decreases s.len(),
{
    if s.len() > 0 && s[0].0 != k {
        lemma_first_key(s.skip(1), k);
        match first_key(s.skip(1), k) {
            Some(i) => {
                assert forall|j: int| 0 <= j < i + 1 implies #[trigger] s[j].0 != k by {
                    if j > 0 {
                        assert(s[j] == s.skip(1)[j - 1]);
                    }
                }
            },
            None => {
                assert forall|j: int| 0 <= j < s.len() implies #[trigger] s[j].0 != k by {
                    if j > 0 {
                        assert(s[j] == s.skip(1)[j - 1]);
                    }
                }
            },
        }
    }
}

/// A position holding `k`, with no earlier one, is `first_key`.
pub proof fn lemma_first_key_at<K, V>(s: Seq<(K, V)>, k: K, i: int)
    requires
        0 <= i < s.len(),
        s[i].0 == k,
        forall|j: int| 0 <= j < i ==> #[trigger] s[j].0 != k,
    ensures
        first_key(s, k) == Some(i),
{
    lemma_first_key(s, k);
    match first_key(s, k) {
        Some(p) => {
            if p < i {
                assert(s[p].0 != k);
            }
            if i < p {
                assert(s[i].0 != k);
            }
        },
        None => {
            assert(s[i].0 != k);
        },
    }
}

/// No position holds `k`: there is no `first_key`.
pub proof fn lemma_first_key_none<K, V>(s: Seq<(K, V)>, k: K)
    requires
        forall|j: int| 0 <= j < s.len() ==> #[trigger] s[j].0 != k,
    ensures
        first_key(s, k) is None,
{
    lemma_first_key(s, k);
}

/// After `key_set`, the key reads back the new value and other keys read
/// as before.
pub proof fn lemma_key_set<K, V>(s: Seq<(K, V)>, k: K, v: V, k2: K)
    ensures
        key_lookup(key_set(s, k, v), k) == Some(v),
        k2 != k ==> key_lookup(key_set(s, k, v), k2) == key_lookup(s, k2),
{
    let t = key_set(s, k, v);
    lemma_first_key(s, k);
    lemma_first_key(s, k2);
    match first_key(s, k) {
        Some(i) => {
            assert forall|j: int| 0 <= j < i implies #[trigger] t[j].0 != k by {
                assert(t[j] == s[j]);
            }
            lemma_first_key_at(t, k, i);
            if k2 != k {
                match first_key(s, k2) {
                    Some(i2) => {
                        assert forall|j: int| 0 <= j < i2 implies #[trigger] t[j].0 != k2 by {
                            if j != i {
                                assert(t[j] == s[j]);
                            }
                        }
                        lemma_first_key_at(t, k2, i2);
                    },
                    None => {
                        assert forall|j: int| 0 <= j < t.len() implies #[trigger] t[j].0 != k2 by {
                            if j != i {
                                assert(t[j] == s[j]);
                            }
                        }
                        lemma_first_key_none(t, k2);
                    },
                }
            }
        },
        None => {
            lemma_key_push(s, k, v);
            if k2 != k {
                match first_key(s, k2) {
                    Some(i2) => {
                        assert forall|j: int| 0 <= j < i2 implies #[trigger] t[j].0 != k2 by {
                            assert(t[j] == s[j]);
                        }
                        lemma_first_key_at(t, k2, i2);
                    },
                    None => {
                        assert forall|j: int| 0 <= j < t.len() implies #[trigger] t[j].0 != k2 by {
                            if j < s.len() {
                                assert(t[j] == s[j]);
                            }
                        }
                        lemma_first_key_none(t, k2);
                    },
                }
            }
        },
    }
}

/// Appending a key that is absent makes the new last position its first.
pub proof fn lemma_key_push<K, V>(s: Seq<(K, V)>, k: K, v: V)
    requires
        first_key(s, k) is None,
    ensures
        first_key(s.push((k, v)), k) == Some(s.len() as int),
        key_lookup(s.push((k, v)), k) == Some(v),
{
    lemma_first_key(s, k);
    let t = s.push((k, v));
    assert forall|j: int| 0 <= j < s.len() implies #[trigger] t[j].0 != k by {
        assert(t[j] == s[j]);
    }
    lemma_first_key_at(t, k, s.len() as int);
}

// ───────────────────────── nodes ─────────────────────────

/// What a trie node holds: literal children and the positions of their
/// nodes, an optional named parameter child, an optional catch-all
/// handler, and handlers keyed by method number.
pub struct NodeView<H> {
    pub children: Seq<(Seq<char>, int)>,
    pub param: Option<(Seq<char>, int)>,
    pub wildcard: Option<H>,
    pub handlers: Seq<(u8, H)>,
}

/// A node with nothing in it.
pub open spec fn empty_node<H>() -> NodeView<H> {
    NodeView { children: Seq::empty(), param: None, wildcard: None, handlers: Seq::empty() }
}

/// Every link of node `i` leads to a later node of the trie.
pub open spec fn node_links_forward<H>(ns: Seq<NodeView<H>>, i: int) -> bool {
    &&& forall|j: int|
        0 <= j < ns[i].children.len() ==> i < #[trigger] ns[i].children[j].1 < ns.len()
    &&& match ns[i].param {
        Some((_, c)) => i < c < ns.len(),
        None => true,
    }
}

/// A well-formed trie: a root at position 0, and links only forward.
pub open spec fn trie_wf<H>(ns: Seq<NodeView<H>>) -> bool {
    &&& ns.len() >= 1
    &&& forall|i: int| 0 <= i < ns.len() ==> #[trigger] node_links_forward(ns, i)
}

/// A segment `*` matches the rest of any path.
pub open spec fn is_wildcard_segment(seg: Seq<char>) -> bool {
    seg == seq!['*']
}

/// A segment `:name` matches any one segment and binds it to `name`.
pub open spec fn is_param_segment(seg: Seq<char>) -> bool {
    seg.len() > 0 && seg[0] == ':'
}

/// The trie after adding `h` for method `m` under the path `segs`, starting
/// at node `cur`.
pub open spec fn insert_route<H>(
    ns: Seq<NodeView<H>>,
    cur: int,
    segs: Seq<Seq<char>>,
    m: u8,
    h: H,
) -> Seq<NodeView<H>>
    decreases segs.len(),
{
    let node = ns[cur];
    if segs.len() == 0 {
        ns.update(
            cur,
            NodeView {
                children: node.children,
                param: node.param,
                wildcard: node.wildcard,
                handlers: key_set(node.handlers, m, h),
            },
        )
    } else if is_wildcard_segment(segs[0]) {
        ns.update(
            cur,
            NodeView {
                children: node.children,
                param: node.param,
                wildcard: Some(h),
                handlers: node.handlers,
            },
        )
    } else if is_param_segment(segs[0]) {
        match node.param {
            Some((_, c)) => insert_route(ns, c, segs.skip(1), m, h),
            None => {
                let n = ns.len() as int;
                let linked = NodeView {
                    children: node.children,
                    param: Some((segs[0].skip(1), n)),
                    wildcard: node.wildcard,
                    handlers: node.handlers,
                };
                insert_route(ns.update(cur, linked).push(empty_node()), n, segs.skip(1), m, h)
            },
        }
    } else {
        match key_lookup(node.children, segs[0]) {
            Some(c) => insert_route(ns, c, segs.skip(1), m, h),
            None => {
                let n = ns.len() as int;
                let linked = NodeView {
                    children: node.children.push((segs[0], n)),
                    param: node.param,
                    wildcard: node.wildcard,
                    handlers: node.handlers,
                };
                insert_route(ns.update(cur, linked).push(empty_node()), n, segs.skip(1), m, h)
            },
        }
    }
}

/// Looking up `segs` for method `m` from node `cur`, with the parameters
/// bound so far: the handler found, if any, and the parameters afterwards.
/// A catch-all handler wins at once; then a literal child is tried, then
/// the parameter child, whose binding is dropped again if it leads nowhere.
pub open spec fn find_route<H>(
    ns: Seq<NodeView<H>>,
    cur: int,
    segs: Seq<Seq<char>>,
    m: u8,
    params: Map<Seq<char>, Seq<char>>,
) -> (Option<H>, Map<Seq<char>, Seq<char>>)
    decreases segs.len(),
{
    let node = ns[cur];
    if node.wildcard is Some {
        (node.wildcard, params)
    } else if segs.len() == 0 {
        (key_lookup(node.handlers, m), params)
    } else {
        let seg = segs[0];
        let rest = segs.skip(1);
        let literal = match key_lookup(node.children, seg) {
            Some(c) => find_route(ns, c, rest, m, params),
            None => (None, params),
        };
        if literal.0 is Some {
            literal
        } else {
            match node.param {
                Some((name, c)) => {
                    let bound = find_route(ns, c, rest, m, literal.1.insert(name, seg));
                    if bound.0 is Some {
                        bound
                    } else {
                        (None, bound.1.remove(name))
                    }
                },
                None => (None, literal.1),
            }
        }
    }
}

/// Replacing a node by one with the same links keeps the trie well formed.
pub proof fn lemma_wf_same_links<H>(ns: Seq<NodeView<H>>, cur: int, node: NodeView<H>)
    requires
        trie_wf(ns),
        0 <= cur < ns.len(),
        node.children == ns[cur].children,
        node.param == ns[cur].param,
    ensures
        trie_wf(ns.update(cur, node)),
{
    let t = ns.update(cur, node);
    assert forall|i: int| 0 <= i < t.len() implies #[trigger] node_links_forward(t, i) by {
        assert(node_links_forward(ns, i));
    }
}

/// Appending an empty node and linking it from `cur`, as a new literal
/// child or as the parameter child, keeps the trie well formed.
pub proof fn lemma_wf_new_node<H>(ns: Seq<NodeView<H>>, cur: int, node: NodeView<H>)
    requires
        trie_wf(ns),
        0 <= cur < ns.len(),
        (node.children == ns[cur].children.push((node.children.last().0, ns.len() as int))
            && node.param == ns[cur].param) || (node.children == ns[cur].children
            && ns[cur].param is None && node.param is Some && (node.param->0).1 == ns.len()),
    ensures
        trie_wf(ns.update(cur, node).push(empty_node())),
{
    let t = ns.update(cur, node).push(empty_node());
    assert forall|i: int| 0 <= i < t.len() implies #[trigger] node_links_forward(t, i) by {
        if i < ns.len() {
            assert(node_links_forward(ns, i));
            if i == cur {
                assert forall|j: int| 0 <= j < t[i].children.len() implies i
                    < #[trigger] t[i].children[j].1 < t.len() by {
                    if j < ns[cur].children.len() {
                        assert(t[i].children[j] == ns[cur].children[j]);
                    }
                }
            }
        }
    }
}

/// Adding a route keeps the trie well formed, only appends nodes, and
/// leaves every node before `cur` as it was.
pub proof fn lemma_insert_frame<H>(ns: Seq<NodeView<H>>, cur: int, segs: Seq<Seq<char>>, m: u8, h: H)
    requires
        trie_wf(ns),
        0 <= cur < ns.len(),
    ensures
        trie_wf(insert_route(ns, cur, segs, m, h)),
        insert_route(ns, cur, segs, m, h).len() >= ns.len(),
        forall|i: int| 0 <= i < cur ==> #[trigger] insert_route(ns, cur, segs, m, h)[i] == ns[i],
    decreases segs.len(),
{
    let node = ns[cur];
    assert(node_links_forward(ns, cur));
    if segs.len() == 0 {
        lemma_wf_same_links(
            ns,
            cur,
            NodeView {
                children: node.children,
                param: node.param,
                wildcard: node.wildcard,
                handlers: key_set(node.handlers, m, h),
            },
        );
    } else if is_wildcard_segment(segs[0]) {
        lemma_wf_same_links(
            ns,
            cur,
            NodeView {
                children: node.children,
                param: node.param,
                wildcard: Some(h),
                handlers: node.handlers,
            },
        );
    } else if is_param_segment(segs[0]) {
        match node.param {
            Some((_, c)) => {
                lemma_insert_frame(ns, c, segs.skip(1), m, h);
            },
            None => {
                let n = ns.len() as int;
                let linked = NodeView {
                    children: node.children,
                    param: Some((segs[0].skip(1), n)),
                    wildcard: node.wildcard,
                    handlers: node.handlers,
                };
                lemma_wf_new_node(ns, cur, linked);
                lemma_insert_frame(ns.update(cur, linked).push(empty_node()), n, segs.skip(1), m, h);
            },
        }
    } else {
        lemma_first_key(node.children, segs[0]);
        match key_lookup(node.children, segs[0]) {
            Some(c) => {
                lemma_insert_frame(ns, c, segs.skip(1), m, h);
            },
            None => {
                let n = ns.len() as int;
                let linked = NodeView {
                    children: node.children.push((segs[0], n)),
                    param: node.param,
                    wildcard: node.wildcard,
                    handlers: node.handlers,
                };
                lemma_wf_new_node(ns, cur, linked);
                lemma_insert_frame(ns.update(cur, linked).push(empty_node()), n, segs.skip(1), m, h);
            },
        }
    }
}

/// No segment is `*` or a parameter.
pub open spec fn literal_path(segs: Seq<Seq<char>>) -> bool {
    forall|i: int|
        0 <= i < segs.len() ==> !is_wildcard_segment(#[trigger] segs[i]) && !is_param_segment(
            segs[i],
        )
}

/// No node that a lookup of the literal path `segs` passes, up to and
/// including the last one, has a catch-all handler.
pub open spec fn no_catch_all<H>(ns: Seq<NodeView<H>>, cur: int, segs: Seq<Seq<char>>) -> bool
    decreases segs.len(),
{
    &&& ns[cur].wildcard is None
    &&& segs.len() > 0 ==> match key_lookup(ns[cur].children, segs[0]) {
        Some(c) => no_catch_all(ns, c, segs.skip(1)),
        None => true,
    }
}

/// No node that a lookup of the literal path `segs` passes before its
/// last one has a catch-all handler.
pub open spec fn no_catch_all_before<H>(
    ns: Seq<NodeView<H>>,
    cur: int,
    segs: Seq<Seq<char>>,
) -> bool
    decreases segs.len(),
{
    segs.len() > 0 ==> {
        &&& ns[cur].wildcard is None
        &&& match key_lookup(ns[cur].children, segs[0]) {
            Some(c) => no_catch_all_before(ns, c, segs.skip(1)),
            None => true,
        }
    }
}

proof fn lemma_literal_skip(segs: Seq<Seq<char>>)
    requires
        literal_path(segs),
        segs.len() > 0,
    ensures
        literal_path(segs.skip(1)),
        !is_wildcard_segment(segs[0]),
        !is_param_segment(segs[0]),
{
    assert forall|i: int| 0 <= i < segs.skip(1).len() implies !is_wildcard_segment(
        #[trigger] segs.skip(1)[i],
    ) && !is_param_segment(segs.skip(1)[i]) by {
        assert(segs.skip(1)[i] == segs[i + 1]);
    }
}

/// An empty node passes no catch-all handler on any path.
proof fn lemma_fresh_no_catch_all<H>(ns: Seq<NodeView<H>>, n: int, segs: Seq<Seq<char>>)
    requires
        0 <= n < ns.len(),
        ns[n] == empty_node::<H>(),
    ensures
        no_catch_all(ns, n, segs),
        no_catch_all_before(ns, n, segs),
{
    if segs.len() > 0 {
        lemma_first_key_none(ns[n].children, segs[0]);
    }
}

/// A literal route reads back: after adding `h` for method `m` under a
/// path with no `*` or parameter segment, looking that path up for `m`
/// gives `h` and binds nothing, provided no catch-all handler lies on the
/// way.
pub proof fn lemma_literal_route<H>(
    ns: Seq<NodeView<H>>,
    cur: int,
    segs: Seq<Seq<char>>,
    m: u8,
    h: H,
    params: Map<Seq<char>, Seq<char>>,
)
    requires
        trie_wf(ns),
        0 <= cur < ns.len(),
        literal_path(segs),
        no_catch_all(ns, cur, segs),
    ensures
        find_route(insert_route(ns, cur, segs, m, h), cur, segs, m, params) == (Some(h), params),
    decreases segs.len(),
{
    let node = ns[cur];
    assert(node_links_forward(ns, cur));
    if segs.len() == 0 {
        lemma_key_set(node.handlers, m, h, m);
    } else {
        lemma_literal_skip(segs);
        let seg = segs[0];
        let rest = segs.skip(1);
        lemma_first_key(node.children, seg);
        match key_lookup(node.children, seg) {
            Some(c) => {
                lemma_literal_route(ns, c, rest, m, h, params);
                lemma_insert_frame(ns, c, rest, m, h);
            },
            None => {
                let n = ns.len() as int;
                let linked = NodeView {
                    children: node.children.push((seg, n)),
                    param: node.param,
                    wildcard: node.wildcard,
                    handlers: node.handlers,
                };
                let ns2 = ns.update(cur, linked).push(empty_node());
                lemma_wf_new_node(ns, cur, linked);
                lemma_fresh_no_catch_all(ns2, n, rest);
                lemma_literal_route(ns2, n, rest, m, h, params);
                lemma_insert_frame(ns2, n, rest, m, h);
                lemma_key_push(node.children, seg, n);
            },
        }
    }
}

/// A catch-all route takes everything below it: after adding `h` under
/// a literal prefix followed by `*`, looking up the prefix followed by
/// any segments, for any method, gives `h` and binds nothing, provided no
/// catch-all handler lies on the way before the prefix ends.
pub proof fn lemma_catch_all_route<H>(
    ns: Seq<NodeView<H>>,
    cur: int,
    prefix: Seq<Seq<char>>,
    tail: Seq<Seq<char>>,
    more: Seq<Seq<char>>,
    m: u8,
    m2: u8,
    h: H,
    params: Map<Seq<char>, Seq<char>>,
)
    requires
        trie_wf(ns),
        0 <= cur < ns.len(),
        literal_path(prefix),
        no_catch_all_before(ns, cur, prefix),
    ensures
        find_route(
            insert_route(ns, cur, prefix + seq![seq!['*']] + tail, m, h),
            cur,
            prefix + more,
            m2,
            params,
        ) == (Some(h), params),
    decreases prefix.len(),
{
    let node = ns[cur];
    let pat = prefix + seq![seq!['*']] + tail;
    let path = prefix + more;
    assert(node_links_forward(ns, cur));
    if prefix.len() == 0 {
        assert(pat[0] == seq!['*']);
    } else {
        lemma_literal_skip(prefix);
        let seg = prefix[0];
        let rest = prefix.skip(1);
        assert(pat[0] == seg);
        assert(path[0] == seg);
        assert(pat.skip(1) =~= rest + seq![seq!['*']] + tail);
        assert(path.skip(1) =~= rest + more);
        lemma_first_key(node.children, seg);
        match key_lookup(node.children, seg) {
            Some(c) => {
                lemma_catch_all_route(ns, c, rest, tail, more, m, m2, h, params);
                lemma_insert_frame(ns, c, pat.skip(1), m, h);
            },
            None => {
                let n = ns.len() as int;
                let linked = NodeView {
                    children: node.children.push((seg, n)),
                    param: node.param,
                    wildcard: node.wildcard,
                    handlers: node.handlers,
                };
                let ns2 = ns.update(cur, linked).push(empty_node());
                lemma_wf_new_node(ns, cur, linked);
                lemma_fresh_no_catch_all(ns2, n, rest);
                lemma_catch_all_route(ns2, n, rest, tail, more, m, m2, h, params);
                lemma_insert_frame(ns2, n, pat.skip(1), m, h);
                lemma_key_push(node.children, seg, n);
            },
        }
    }
}

/// Whether the path `conc` fits the route pattern `pat`: as many segments,
/// no `*` in the pattern, and each literal segment matched exactly.
pub open spec fn fits_pattern(pat: Seq<Seq<char>>, conc: Seq<Seq<char>>) -> bool {
    &&& pat.len() == conc.len()
    &&& forall|i: int|
        0 <= i < pat.len() ==> !is_wildcard_segment(#[trigger] pat[i]) && (!is_param_segment(
            pat[i],
        ) ==> conc[i] == pat[i])
}

/// The parameters that the path `conc` binds against the pattern `pat`,
/// added in order to `params`.
pub open spec fn bind_params(
    pat: Seq<Seq<char>>,
    conc: Seq<Seq<char>>,
    params: Map<Seq<char>, Seq<char>>,
) -> Map<Seq<char>, Seq<char>>
    decreases pat.len(),
{
    if pat.len() == 0 || conc.len() == 0 {
        params
    } else {
        bind_params(
            pat.skip(1),
            conc.skip(1),
            if is_param_segment(pat[0]) {
                params.insert(pat[0].skip(1), conc[0])
            } else {
                params
            },
        )
    }
}

/// Parameters bind: on a fresh node (such as the root of a new router),
/// after adding `h` for method `m` under a pattern, looking up for `m` any
/// path that fits the pattern gives `h`, with each `:name` bound to the
/// segment in its place.
pub proof fn lemma_param_route<H>(
    ns: Seq<NodeView<H>>,
    cur: int,
    pat: Seq<Seq<char>>,
    conc: Seq<Seq<char>>,
    m: u8,
    h: H,
    params: Map<Seq<char>, Seq<char>>,
)
    requires
        trie_wf(ns),
        cur == ns.len() - 1,
        ns[cur] == empty_node::<H>(),
        fits_pattern(pat, conc),
    ensures
        find_route(insert_route(ns, cur, pat, m, h), cur, conc, m, params) == (
            Some(h),
            bind_params(pat, conc, params),
        ),
    decreases pat.len(),
{
    let node = ns[cur];
    if pat.len() == 0 {
        lemma_key_set(node.handlers, m, h, m);
    } else {
        let seg = pat[0];
        assert(!is_wildcard_segment(pat[0]));
        let rest = pat.skip(1);
        let crest = conc.skip(1);
        assert forall|i: int| 0 <= i < rest.len() implies !is_wildcard_segment(#[trigger] rest[i])
            && (!is_param_segment(rest[i]) ==> crest[i] == rest[i]) by {
            assert(rest[i] == pat[i + 1]);
            assert(crest[i] == conc[i + 1]);
        }
        let n = ns.len() as int;
        lemma_first_key_none(node.children, seg);
        lemma_first_key_none(node.children, conc[0]);
        if is_param_segment(seg) {
            let linked = NodeView {
                children: node.children,
                param: Some((seg.skip(1), n)),
                wildcard: node.wildcard,
                handlers: node.handlers,
            };
            let ns2 = ns.update(cur, linked).push(empty_node());
            lemma_wf_new_node(ns, cur, linked);
            let p1 = params.insert(seg.skip(1), conc[0]);
            lemma_param_route(ns2, n, rest, crest, m, h, p1);
            lemma_insert_frame(ns2, n, rest, m, h);
        } else {
            let linked = NodeView {
                children: node.children.push((seg, n)),
                param: node.param,
                wildcard: node.wildcard,
                handlers: node.handlers,
            };
            let ns2 = ns.update(cur, linked).push(empty_node());
            lemma_wf_new_node(ns, cur, linked);
            lemma_param_route(ns2, n, rest, crest, m, h, params);
            lemma_insert_frame(ns2, n, rest, m, h);
            lemma_key_push(node.children, seg, n);
        }
    }
}

} // verus!
