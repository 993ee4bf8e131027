//! Valence declarations: what a particle slot emits and absorbs, stored as one text
//! property of tokens joined by the unit separator, and a balance report over a space.

use crate::graph::{Graph, Node, NodeId, PropValue, PropValueView};
use crate::text::{insert_sorted_unique, strictly_sorted, text_eq, views};
use crate::tiers::{binding_walk, reachable};
use vstd::prelude::*;

verus! {

/// Delimiter between valence tokens inside one text value.
pub open spec fn valence_sep() -> char {
    '\u{1f}'
}

/// Tokens joined by the delimiter.
pub open spec fn join_tokens(ts: Seq<Seq<char>>) -> Seq<char>
    decreases ts.len(),
{
    if ts.len() == 0 {
        Seq::empty()
    } else if ts.len() == 1 {
        ts[0]
    } else {
        join_tokens(ts.drop_last()) + seq![valence_sep()] + ts.last()
    }
}

/// Text split at every delimiter, as `str::split` does: `n` delimiters give `n + 1` pieces.
pub open spec fn split_tokens(s: Seq<char>) -> Seq<Seq<char>>
    decreases s.len(),
{
    if s.len() == 0 {
        seq![Seq::empty()]
    } else {
        let init = split_tokens(s.drop_last());
        if s.last() == valence_sep() {
            init.push(Seq::empty())
        } else {
            init.update(init.len() - 1, init.last().push(s.last()))
        }
    }
}

/// What [`encode_valence`] stores for these tokens.
pub open spec fn encode_spec(ts: Seq<Seq<char>>) -> Option<PropValueView> {
    if ts.len() == 0 {
        None
    } else {
        Some(PropValueView::Text(join_tokens(ts)))
    }
}

/// What [`decode_valence`] reads back from a property value.
pub open spec fn decode_spec(v: Option<PropValueView>) -> Seq<Seq<char>> {
    match v {
        Some(PropValueView::Text(s)) => if s.len() > 0 {
            split_tokens(s)
        } else {
            Seq::empty()
        },
        _ => Seq::empty(),
    }
}

/// The token does not contain the delimiter.
pub open spec fn plain_token(t: Seq<char>) -> bool {
    !t.contains(valence_sep())
}

pub proof fn lemma_split_nonempty(s: Seq<char>)
    ensures
        split_tokens(s).len() >= 1,
    decreases s.len(),
{
    if s.len() > 0 {
        lemma_split_nonempty(s.drop_last());
    }
}

/// Appending delimiter-free text extends the last piece.
pub proof fn lemma_split_extend(x: Seq<char>, t: Seq<char>)
    requires
        plain_token(t),
    ensures
        split_tokens(x + t) == split_tokens(x).update(
            split_tokens(x).len() - 1,
            split_tokens(x).last() + t,
        ),
    decreases t.len(),
{
    lemma_split_nonempty(x);
    if t.len() == 0 {
        assert(x + t =~= x);
        assert(split_tokens(x).last() + t =~= split_tokens(x).last());
        assert(split_tokens(x).update(split_tokens(x).len() - 1, split_tokens(x).last()) =~= split_tokens(x));
    } else {
        let t0 = t.drop_last();
        assert(!t0.contains(valence_sep())) by {
            if t0.contains(valence_sep()) {
                let k = choose|k: int| 0 <= k < t0.len() && t0[k] == valence_sep();
                assert(t[k] == valence_sep());
            }
        }
        lemma_split_extend(x, t0);
        assert((x + t).drop_last() =~= x + t0);
        assert((x + t).last() == t.last());
        assert(t.last() != valence_sep()) by {
            assert(t[t.len() - 1] == t.last());
        }
        let a = split_tokens(x);
        assert(split_tokens(x + t) =~= a.update(a.len() - 1, a.last() + t)) by {
            assert(a.last() + t =~= (a.last() + t0).push(t.last()));
        }
    }
}

/// Joining delimiter-free tokens and splitting again gives the tokens back.
pub proof fn lemma_split_join(ts: Seq<Seq<char>>)
    requires
        ts.len() >= 1,
        forall|i: int| 0 <= i < ts.len() ==> plain_token(#[trigger] ts[i]),
    ensures
        split_tokens(join_tokens(ts)) == ts,
    decreases ts.len(),
{
    if ts.len() == 1 {
        lemma_split_extend(Seq::empty(), ts[0]);
        assert(Seq::<char>::empty() + ts[0] =~= ts[0]);
        assert(split_tokens(Seq::<char>::empty()) =~= seq![Seq::<char>::empty()]);
        assert(Seq::<char>::empty() + ts[0] =~= ts[0]);
        assert(split_tokens(ts[0]) =~= ts);
    } else {
        let init = ts.drop_last();
        assert forall|i: int| 0 <= i < init.len() implies plain_token(#[trigger] init[i]) by {
            assert(init[i] == ts[i]);
        }
        lemma_split_join(init);
        let x = join_tokens(init) + seq![valence_sep()];
        assert(x.drop_last() =~= join_tokens(init));
        assert(split_tokens(x) =~= init.push(Seq::empty()));
        assert(plain_token(ts.last())) by {
            assert(ts[ts.len() - 1] == ts.last());
        }
        lemma_split_extend(x, ts.last());
        assert(Seq::<char>::empty() + ts.last() =~= ts.last());
        assert(split_tokens(join_tokens(ts)) =~= ts);
    }
}

/// Decoding what was encoded gives the tokens back, for delimiter-free tokens,
/// except for the single empty token (stored as empty text, which reads as no tokens).
pub proof fn lemma_valence_roundtrip(ts: Seq<Seq<char>>)
    requires
        forall|i: int| 0 <= i < ts.len() ==> plain_token(#[trigger] ts[i]),
        ts != seq![Seq::<char>::empty()],
    ensures
        decode_spec(encode_spec(ts)) == ts,
{
    if ts.len() == 0 {
        assert(decode_spec(encode_spec(ts)) =~= ts);
    } else {
        lemma_split_join(ts);
        if ts.len() == 1 {
            if ts[0].len() == 0 {
                assert(ts =~= seq![Seq::<char>::empty()]);
            }
        } else {
            assert(join_tokens(ts).len() > 0);
        }
    }
}

/// Encode valence tokens into one text value, or nothing when there are none.
pub fn encode_valence(tokens: &[&str]) -> (r: Option<PropValue>)
    ensures
        match r {
            None => encode_spec(tokens@.map_values(|t: &str| t@)) is None,
            Some(v) => encode_spec(tokens@.map_values(|t: &str| t@)) == Some(v@),
        },
{
    let ghost ts = tokens@.map_values(|t: &str| t@);
    let n = tokens.len();
    if n == 0 {
        return None;
    }
    let sep = "\u{1f}";
    proof {
        reveal_strlit("\u{1f}");
    }
    assert(sep@ =~= seq![valence_sep()]);
    let mut out = String::new();
    out.append(tokens[0]);
    assert(out@ =~= join_tokens(ts.take(1)));
    let mut i: usize = 1;
    while i < n
        invariant
            n == tokens@.len(),
            ts == tokens@.map_values(|t: &str| t@),
            sep@ == seq![valence_sep()],
            1 <= i <= n,
            out@ == join_tokens(ts.take(i as int)),
        decreases n - i,
    {
        out.append(sep);
        out.append(tokens[i]);
        assert(ts.take(i + 1).drop_last() =~= ts.take(i as int));
        assert(ts.take(i + 1).last() == tokens@[i as int]@);
        i = i + 1;
    }
    assert(ts.take(n as int) =~= ts);
    Some(PropValue::Text(out))
}

/// Decode valence tokens from a property value: the pieces of non-empty text between
/// delimiters; nothing for anything else.
pub fn decode_valence(value: Option<&PropValue>) -> (r: Vec<String>)
    ensures
        views(r@) == decode_spec(
            match value {
                Some(v) => Some(v@),
                None => None,
            },
        ),
{
    let mut out: Vec<String> = Vec::new();
    match value {
        Some(PropValue::Text(s)) => {
            let len = s.as_str().unicode_len();
            if len == 0 {
                assert(views(out@) =~= Seq::<Seq<char>>::empty());
                return out;
            }
            let mut start: usize = 0;
            let mut k: usize = 0;
            assert(s@.take(0) =~= Seq::<char>::empty());
            assert(views(out@).push(s@.subrange(0, 0)) =~= split_tokens(s@.take(0)));
            while k < len
                invariant
                    len == s@.len(),
                    start <= k <= len,
                    views(out@).push(s@.subrange(start as int, k as int)) == split_tokens(s@.take(k as int)),
                decreases len - k,
            {
                let c = s.as_str().get_char(k);
                let ghost prev = views(out@);
                let ghost sk = s@.take(k as int);
                assert(s@.take(k + 1).drop_last() =~= sk);
                assert(s@.take(k + 1).last() == c);
                proof {
                    lemma_split_nonempty(sk);
                }
                let ghost st = start;
                if c == '\u{1f}' {
                    let piece = String::from_str(s.as_str().substring_char(start, k));
                    let ghost pv = piece@;
                    out.push(piece);
                    start = k + 1;
                    assert(views(out@) =~= prev.push(s@.subrange(st as int, k as int))) by {
                        assert(pv == s@.subrange(st as int, k as int));
                    }
                    assert(s@.subrange(start as int, (k + 1) as int) =~= Seq::<char>::empty());
                    assert(views(out@).push(s@.subrange(start as int, (k + 1) as int)) =~= split_tokens(s@.take(k + 1)));
                } else {
                    assert(s@.subrange(start as int, (k + 1) as int) =~= s@.subrange(start as int, k as int).push(c));
                    assert(views(out@).push(s@.subrange(start as int, (k + 1) as int)) =~= split_tokens(s@.take(k + 1)));
                }
                k = k + 1;
            }
            let piece = String::from_str(s.as_str().substring_char(start, len));
            let ghost prev = views(out@);
            let ghost pv = piece@;
            out.push(piece);
            assert(pv == s@.subrange(start as int, len as int));
            assert(s@.take(len as int) =~= s@);
            assert(views(out@) =~= prev.push(s@.subrange(start as int, len as int)));
            out
        },
        _ => {
            assert(views(out@) =~= Seq::<Seq<char>>::empty());
            out
        },
    }
}


/// Emitter / absorber counts and unmatched valence tokens under a space root.
/// It only reports; unbalanced wiring is never rejected.
#[derive(Debug)]
pub struct ValenceReport {
    pub emitters: usize,
    pub absorbers: usize,
    /// Tokens emitted more often than they are absorbed in the space, sorted.
    pub unmatched_emits: Vec<String>,
    /// Tokens absorbed more often than they are emitted in the space, sorted.
    pub unmatched_absorbs: Vec<String>,
}

/// Tokens a node declares under `key`.
pub open spec fn node_tokens(n: Node, key: Seq<char>) -> Seq<Seq<char>> {
    decode_spec(n.props.get_spec(key))
}

/// The nodes of the space: stored nodes reachable from `root` down Binding edges.
pub open spec fn space_nodes(g: Graph, root: NodeId) -> Seq<Node> {
    g.nodes@.filter(in_space(g, root))
}

/// The node is reachable from `root` down Binding edges.
pub open spec fn in_space(g: Graph, root: NodeId) -> spec_fn(Node) -> bool {
    |n: Node| reachable(g, root, n.id)
}

/// How many nodes of `ns` declare at least one token under `key`.
pub open spec fn declarers(ns: Seq<Node>, key: Seq<char>) -> nat
    decreases ns.len(),
{
    if ns.len() == 0 {
        0
    } else {
        declarers(ns.drop_last(), key) + if node_tokens(ns.last(), key).len() > 0 {
            1nat
        } else {
            0nat
        }
    }
}

/// All tokens that nodes of `ns` declare under `key`, node by node.
pub open spec fn all_tokens(ns: Seq<Node>, key: Seq<char>) -> Seq<Seq<char>>
    decreases ns.len(),
{
    if ns.len() == 0 {
        Seq::empty()
    } else {
        all_tokens(ns.drop_last(), key) + node_tokens(ns.last(), key)
    }
}

/// Occurrences of `t` in `s`.
pub open spec fn occurrences(s: Seq<Seq<char>>, t: Seq<char>) -> nat
    decreases s.len(),
{
    if s.len() == 0 {
        0
    } else {
        occurrences(s.drop_last(), t) + if s.last() == t {
            1nat
        } else {
            0nat
        }
    }
}

/// Exactly the tokens occurring more often in `more` than in `fewer`, strictly sorted.
pub open spec fn unmatched(r: Seq<Seq<char>>, more: Seq<Seq<char>>, fewer: Seq<Seq<char>>) -> bool {
    &&& strictly_sorted(r)
    &&& forall|t: Seq<char>| #[trigger] r.contains(t) <==> occurrences(more, t) > occurrences(fewer, t)
}

pub proof fn lemma_occurrences_positive(s: Seq<Seq<char>>, t: Seq<char>)
    requires
        occurrences(s, t) > 0,
    ensures
        s.contains(t),
    decreases s.len(),
{
    if s.last() == t {
        assert(s[s.len() - 1] == t);
    } else {
        lemma_occurrences_positive(s.drop_last(), t);
        let k = choose|k: int| 0 <= k < s.drop_last().len() && s.drop_last()[k] == t;
        assert(s[k] == t);
    }
}

pub proof fn lemma_occurrences_concat(a: Seq<Seq<char>>, b: Seq<Seq<char>>, t: Seq<char>)
    ensures
        occurrences(a + b, t) == occurrences(a, t) + occurrences(b, t),
    decreases b.len(),
{
    if b.len() == 0 {
        assert(a + b =~= a);
    } else {
        assert((a + b).drop_last() =~= a + b.drop_last());
        lemma_occurrences_concat(a, b.drop_last(), t);
    }
}

/// Occurrences of `x` among `v`.
fn count_in(v: &Vec<String>, x: &str) -> (c: usize)
    ensures
        c == occurrences(views(v@), x@),
{
    let n = v.len();
    let mut i: usize = 0;
    let mut c: usize = 0;
    assert(views(v@).take(0) =~= Seq::<Seq<char>>::empty());
    while i < n
        invariant
            n == v@.len(),
            i <= n,
            c <= i,
            c == occurrences(views(v@).take(i as int), x@),
        decreases n - i,
    {
        assert(views(v@).take(i + 1).drop_last() =~= views(v@).take(i as int));
        assert(views(v@).take(i + 1).last() == v@[i as int]@);
        if text_eq(v[i].as_str(), x) {
            c = c + 1;
        }
        i = i + 1;
    }
    assert(views(v@).take(n as int) =~= views(v@));
    c
}

/// The tokens of `more` that occur in it more often than in `fewer`, sorted, once each.
fn unmatched_tokens(more: &Vec<String>, fewer: &Vec<String>) -> (r: Vec<String>)
    ensures
        unmatched(views(r@), views(more@), views(fewer@)),
{
    let mut r: Vec<String> = Vec::new();
    let n = more.len();
    let mut i: usize = 0;
    assert(views(r@).to_set() =~= Set::<Seq<char>>::empty());
    while i < n
        invariant
            n == more@.len(),
            i <= n,
            strictly_sorted(views(r@)),
            forall|t: Seq<char>| #[trigger] views(r@).to_set().contains(t) <==> (views(more@).take(i as int).contains(t)
                && occurrences(views(more@), t) > occurrences(views(fewer@), t)),
        decreases n - i,
    {
        let ce = count_in(more, more[i].as_str());
        let ca = count_in(fewer, more[i].as_str());
        let ghost ti = more@[i as int]@;
        assert(views(more@)[i as int] == ti);
        assert(views(more@).take(i + 1) =~= views(more@).take(i as int).push(ti));
        let ghost before = views(r@).to_set();
        if ce > ca {
            insert_sorted_unique(&mut r, more[i].clone());
        }
        assert forall|t: Seq<char>| #[trigger] views(r@).to_set().contains(t) <==> (views(more@).take(i + 1).contains(t)
            && occurrences(views(more@), t) > occurrences(views(fewer@), t)) by {
            let p = views(more@).take(i as int);
            assert(p.push(ti).contains(t) <==> (p.contains(t) || t == ti)) by {
                if p.push(ti).contains(t) {
                    let k = choose|k: int| 0 <= k < p.push(ti).len() && p.push(ti)[k] == t;
                    if k < p.len() {
                        assert(p[k] == t);
                    }
                }
                if p.contains(t) {
                    let k = choose|k: int| 0 <= k < p.len() && p[k] == t;
                    assert(p.push(ti)[k] == t);
                }
                if t == ti {
                    assert(p.push(ti)[p.len() as int] == t);
                }
            }
        }
        i = i + 1;
    }
    assert(views(more@).take(n as int) =~= views(more@));
    assert forall|t: Seq<char>| #[trigger] views(r@).contains(t) <==> occurrences(views(more@), t) > occurrences(
        views(fewer@),
        t,
    ) by {
        if occurrences(views(more@), t) > occurrences(views(fewer@), t) {
            lemma_occurrences_positive(views(more@), t);
        }
        assert(views(r@).contains(t) == views(r@).to_set().contains(t));
    }
    r
}

/// Count emitters, absorbers and unmatched valence tokens over the nodes reachable
/// from `space_root` down Binding edges.
pub fn valence_report(graph: &Graph, space_root: NodeId) -> (report: ValenceReport)
    requires
        graph.wf(),
    ensures
        report.emitters == declarers(space_nodes(*graph, space_root), "valence_emit"@),
        report.absorbers == declarers(space_nodes(*graph, space_root), "valence_absorb"@),
        unmatched(
            views(report.unmatched_emits@),
            all_tokens(space_nodes(*graph, space_root), "valence_emit"@),
            all_tokens(space_nodes(*graph, space_root), "valence_absorb"@),
        ),
        unmatched(
            views(report.unmatched_absorbs@),
            all_tokens(space_nodes(*graph, space_root), "valence_absorb"@),
            all_tokens(space_nodes(*graph, space_root), "valence_emit"@),
        ),
{
    let walk = binding_walk(graph, space_root);
    let ghost pred = in_space(*graph, space_root);
    let mut emitters: usize = 0;
    let mut absorbers: usize = 0;
    let mut emits: Vec<String> = Vec::new();
    let mut absorbs: Vec<String> = Vec::new();
    let n = graph.nodes.len();
    let mut i: usize = 0;
    assert(graph.nodes@.take(0).filter(pred) =~= Seq::<Node>::empty()) by {
        reveal(Seq::filter);
    }
    while i < n
        invariant
            graph.wf(),
            pred == in_space(*graph, space_root),
            n == graph.nodes@.len(),
            i <= n,
            emitters <= i,
            absorbers <= i,
            forall|k: int| 0 <= k < walk@.len() ==> reachable(*graph, space_root, #[trigger] walk@[k].0),
            forall|m: NodeId| #[trigger] reachable(*graph, space_root, m) ==> exists|k: int|
                0 <= k < walk@.len() && walk@[k].0 == m,
            emitters == declarers(graph.nodes@.take(i as int).filter(pred), "valence_emit"@),
            absorbers == declarers(graph.nodes@.take(i as int).filter(pred), "valence_absorb"@),
            views(emits@) == all_tokens(graph.nodes@.take(i as int).filter(pred), "valence_emit"@),
            views(absorbs@) == all_tokens(graph.nodes@.take(i as int).filter(pred), "valence_absorb"@),
        decreases n - i,
    {
        let node = &graph.nodes[i];
        assert(graph.nodes@.take(i + 1) =~= graph.nodes@.take(i as int).push(*node));
        proof {
            graph.nodes@.take(i as int).lemma_filter_push(*node, pred);
        }
        let ghost prior = graph.nodes@.take(i as int).filter(pred);
        let mut found = false;
        let wn = walk.len();
        let mut k: usize = 0;
        while k < wn
            invariant
                wn == walk@.len(),
                k <= wn,
                !found ==> forall|q: int| 0 <= q < k ==> walk@[q].0 != node.id,
                found ==> reachable(*graph, space_root, node.id),
                forall|q: int| 0 <= q < walk@.len() ==> reachable(*graph, space_root, #[trigger] walk@[q].0),
            decreases wn - k,
        {
            if walk[k].0 == node.id {
                found = true;
            }
            k = k + 1;
        }
        if found {
            assert(reachable(*graph, space_root, node.id));
            assert(pred(*node));
            let ghost after = prior.push(*node);
            assert(after.drop_last() =~= prior);
            let mut e = decode_valence(node.props.get("valence_emit"));
            let mut a = decode_valence(node.props.get("valence_absorb"));
            assert(views(e@) == node_tokens(*node, "valence_emit"@));
            assert(views(a@) == node_tokens(*node, "valence_absorb"@));
            if e.len() > 0 {
                emitters = emitters + 1;
            }
            if a.len() > 0 {
                absorbers = absorbers + 1;
            }
            let ghost pe = emits@;
            let ghost ee = e@;
            emits.append(&mut e);
            assert(views(emits@) =~= views(pe) + views(ee));
            let ghost pa = absorbs@;
            let ghost aa = a@;
            absorbs.append(&mut a);
            assert(views(absorbs@) =~= views(pa) + views(aa));
        } else {
            assert(!reachable(*graph, space_root, node.id)) by {
                if reachable(*graph, space_root, node.id) {
                    let q = choose|q: int| 0 <= q < walk@.len() && walk@[q].0 == node.id;
                    assert(walk@[q].0 != node.id);
                }
            }
            assert(!pred(*node));
        }
        i = i + 1;
    }
    assert(graph.nodes@.take(n as int) =~= graph.nodes@);
    let unmatched_emits = unmatched_tokens(&emits, &absorbs);
    let unmatched_absorbs = unmatched_tokens(&absorbs, &emits);
    ValenceReport { emitters, absorbers, unmatched_emits, unmatched_absorbs }
}

} // verus!

