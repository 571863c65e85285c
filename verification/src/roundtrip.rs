//! What reading back a written scope graph gives: a graph of the same shape.
//! Every scope that was written in full has become a new scope of its own
//! with the same name, flags, edges and bindings, and two scopes have become
//! one only where both were written as paths that name one scope.

use vstd::prelude::*;
use crate::deserialization::{
    readable_into,
    Scopes, decoded, decode_members, decode_uses, decode_binding, decode_value, decode_node,
    read_in_full, reading, covers, member_covered, names_scope, sound, sound_member,
    sound_scope_ref, sound_user_scope,
};
use crate::scope::{
    Graph, ScopeDataView, Mapping, full_path_of, global_value_of, graph_wf, node_wf, binds,
};
use crate::serialization::{
    ElementView, Index, Table, complete, encodes_scope, encodes_node, encodes_member, indexed,
    members_ok, serialization_of, serialization_with, uses_ok, written,
};
use crate::value::ValueView;

verus! {

/// The scope `s` was written and the entry it was written to has been read.
pub open spec fn read_back(w: Index, m: Scopes, s: usize) -> bool {
    w.contains_key(s) && m.contains_key(w[s])
}

/// The scope that the scope `s` has become.
pub open spec fn image(w: Index, m: Scopes, s: usize) -> usize {
    m[w[s]]
}

/// The value that a value has become: a reference to a scope refers to what
/// the scope has become, and data is what it was.
pub open spec fn value_image(w: Index, m: Scopes, v: ValueView) -> ValueView {
    match v {
        ValueView::Scope(t) => ValueView::Scope(image(w, m, t as usize) as nat),
        _ => v,
    }
}

pub open spec fn link_image(w: Index, m: Scopes, link: Option<usize>) -> Option<usize> {
    match link {
        None => None,
        Some(t) => Some(image(w, m, t)),
    }
}

/// The bindings that the bindings `mapping` have become.
pub open spec fn mapping_image(w: Index, m: Scopes, mapping: Mapping) -> Mapping {
    Seq::new(mapping.len(), |j: int| (mapping[j].0, value_image(w, m, mapping[j].1)))
}

/// The imports that the imports `uses` have become.
pub open spec fn uses_image(w: Index, m: Scopes, uses: Seq<usize>) -> Seq<usize> {
    Seq::new(uses.len(), |j: int| image(w, m, uses[j]))
}

/// No two of the imports have become one scope.
pub open spec fn distinct_images(w: Index, m: Scopes, uses: Seq<usize>) -> bool {
    forall|i: int, j: int| 0 <= i < j < uses.len() ==> image(w, m, #[trigger] uses[i]) != image(w, m, #[trigger] uses[j])
}

/// The node `n2` is what the node `n` has become: the same name and flags,
/// the same bindings in the same order, and a parent and a caller that are
/// what those of `n` have become.
pub open spec fn same_node(w: Index, m: Scopes, n: ScopeDataView, n2: ScopeDataView) -> bool {
    &&& n2.name == n.name
    &&& n2.is_loop == n.is_loop
    &&& n2.is_stopped == n.is_stopped
    &&& n2.is_readonly == n.is_readonly
    &&& n2.parent_scope == link_image(w, m, n.parent_scope)
    &&& n2.calling_scope == link_image(w, m, n.calling_scope)
    &&& n2.mapping == mapping_image(w, m, n.mapping)
}

/// Every scope that the node refers to was written and has been read.
pub open spec fn targets_read_back(w: Index, m: Scopes, n: ScopeDataView) -> bool {
    &&& n.parent_scope matches Some(p) ==> read_back(w, m, p)
    &&& n.calling_scope matches Some(c) ==> read_back(w, m, c)
    &&& forall|j: int| 0 <= j < n.uses.len() ==> read_back(w, m, #[trigger] n.uses[j])
    &&& forall|j: int|
        0 <= j < n.mapping.len() ==> ((#[trigger] n.mapping[j]).1 matches ValueView::Scope(t) ==> read_back(
            w,
            m,
            t as usize,
        ))
}

proof fn lemma_members_image(
    g: Graph,
    e: Table,
    w: Index,
    m: Scopes,
    smembers: Seq<u64>,
    mapping: Mapping,
    k: nat,
)
    requires
        complete(g, e, w),
        members_ok(e, w, smembers, mapping),
        forall|i: int, j: int| 0 <= i < j < mapping.len() ==> (#[trigger] mapping[i]).0 != (#[trigger] mapping[j]).0,
        k <= mapping.len(),
    ensures
        decode_members(e, m, smembers, k) == mapping_image(w, m, mapping.take(k as int)),
    decreases k,
{
    if k == 0 {
        assert(mapping_image(w, m, mapping.take(0)) =~= Seq::empty());
    } else {
        lemma_members_image(g, e, w, m, smembers, mapping, (k - 1) as nat);
        let prev = mapping_image(w, m, mapping.take(k - 1));
        let b = mapping[k - 1];
        assert(encodes_member(e, w, smembers[k - 1], b));
        let member = e[smembers[k - 1] as int];
        let value = member->Member_value;
        assert(decode_value(e, m, value) == value_image(w, m, b.1)) by {
            if let ValueView::Scope(t) = b.1 {
                assert(w.contains_key(t as usize));
                assert(encodes_scope(g, e, w, t as usize));
            }
        }
        assert(decode_binding(e, m, smembers[k - 1]) == (b.0, value_image(w, m, b.1)));
        assert(!binds(prev, b.0)) by {
            if binds(prev, b.0) {
                let i = choose|i: int| 0 <= i < prev.len() && (#[trigger] prev[i]).0 == b.0;
                assert(mapping[i].0 != mapping[k - 1].0);
            }
        }
        assert(prev.push((b.0, value_image(w, m, b.1))) =~= mapping_image(w, m, mapping.take(k as int)));
    }
}

proof fn lemma_uses_image(w: Index, m: Scopes, suses: Seq<u64>, uses: Seq<usize>, k: nat)
    requires
        uses_ok(w, suses, uses),
        distinct_images(w, m, uses),
        k <= uses.len(),
    ensures
        decode_uses(m, suses, k) == uses_image(w, m, uses.take(k as int)),
    decreases k,
{
    if k == 0 {
        assert(uses_image(w, m, uses.take(0)) =~= Seq::empty());
    } else {
        lemma_uses_image(w, m, suses, uses, (k - 1) as nat);
        let prev = uses_image(w, m, uses.take(k - 1));
        let x = image(w, m, uses[k - 1]);
        assert(w.contains_key(uses[k - 1]));
        assert(m[suses[k - 1] as usize] == x);
        assert(!prev.contains(x)) by {
            if prev.contains(x) {
                let i = choose|i: int| 0 <= i < prev.len() && prev[i] == x;
                assert(image(w, m, uses[i]) != image(w, m, uses[k - 1]));
            }
        }
        assert(prev.push(x) =~= uses_image(w, m, uses.take(k as int)));
    }
}

/// Round trip of a scope that was written in full. If a scope graph `g` was
/// written to the table `e`, and `e` was read into a graph that began as
/// `g0` and is now `g2`, then every scope `s` of `g` that has no full path
/// and was read back has become a new scope of `g2` with the name, the flags
/// and the bindings of `s`, in their order; its parent, its caller and the
/// scopes that its bindings refer to are what those of `s` have become, and
/// all of them were read back too. Its imports are what those of `s` have
/// become, in their order, where no two of them have become one scope.
pub proof fn lemma_round_trip_scope(
    g: Graph,
    e: Table,
    w: Index,
    g0: Graph,
    g2: Graph,
    m: Scopes,
    s: usize,
)
    requires
        graph_wf(g),
        written(g, e, w),
        read_in_full(e, g0, g2, m),
        read_back(w, m, s),
        full_path_of(g, s as int) is None,
    ensures
        g0.len() <= image(w, m, s) < g2.len(),
        targets_read_back(w, m, g[s as int]),
        same_node(w, m, g[s as int], g2[image(w, m, s) as int]),
        distinct_images(w, m, g[s as int].uses) ==> g2[image(w, m, s) as int].uses == uses_image(
            w,
            m,
            g[s as int].uses,
        ),
{
    let n = g[s as int];
    let i = w[s];
    assert(encodes_scope(g, e, w, s));
    assert(decoded(e, g0, g2, m, i));
    let ss = e[i as int]->UserScope_0;
    assert(encodes_node(e, w, ss, n));
    assert(covers(e, m, ss));
    let n2 = g2[m[i] as int];
    assert(n2 == decode_node(e, m, ss));
    assert(node_wf(n, g.len()));
    lemma_members_image(g, e, w, m, ss.members, n.mapping, n.mapping.len());
    assert(n.mapping.take(n.mapping.len() as int) =~= n.mapping);
    if distinct_images(w, m, n.uses) {
        lemma_uses_image(w, m, ss.uses, n.uses, n.uses.len());
        assert(n.uses.take(n.uses.len() as int) =~= n.uses);
    }
    assert forall|j: int| 0 <= j < n.uses.len() implies read_back(w, m, #[trigger] n.uses[j]) by {
        assert(w.contains_key(n.uses[j]));
        assert(m.contains_key(ss.uses[j] as usize));
    }
    assert forall|j: int| 0 <= j < n.mapping.len() implies ((#[trigger] n.mapping[j]).1 matches ValueView::Scope(t)
        ==> read_back(w, m, t as usize)) by {
        if let ValueView::Scope(t) = n.mapping[j].1 {
            assert(encodes_member(e, w, ss.members[j], n.mapping[j]));
            assert(member_covered(e, m, ss.members[j]));
            assert(encodes_scope(g, e, w, t as usize));
        }
    }
}

/// Round trip of a scope that was written by its path: what it has become
/// is the scope that its full path names in the graph that the table was
/// read into, as that graph was before.
pub proof fn lemma_round_trip_path(
    g: Graph,
    e: Table,
    w: Index,
    g0: Graph,
    g2: Graph,
    m: Scopes,
    s: usize,
)
    requires
        graph_wf(g),
        written(g, e, w),
        read_in_full(e, g0, g2, m),
        read_back(w, m, s),
        full_path_of(g, s as int) is Some,
    ensures
        image(w, m, s) < g0.len(),
        global_value_of(g0, full_path_of(g, s as int)->0) == Some(ValueView::Scope(image(w, m, s) as nat)),
{
    assert(encodes_scope(g, e, w, s));
    assert(decoded(e, g0, g2, m, w[s]));
}

/// Identity is preserved: a scope that was written in full has become a
/// scope that no other scope has become.
pub proof fn lemma_round_trip_identity(
    g: Graph,
    e: Table,
    w: Index,
    g0: Graph,
    g2: Graph,
    m: Scopes,
    s: usize,
    t: usize,
)
    requires
        graph_wf(g),
        written(g, e, w),
        read_in_full(e, g0, g2, m),
        read_back(w, m, s),
        read_back(w, m, t),
        full_path_of(g, s as int) is None,
        s != t,
    ensures
        image(w, m, s) != image(w, m, t),
{
    assert(encodes_scope(g, e, w, s));
    assert(encodes_scope(g, e, w, t));
    assert(w[s] != w[t]);
    assert(decoded(e, g0, g2, m, w[s]));
    assert(decoded(e, g0, g2, m, w[t]));
}


/// What was written can be read. If a scope graph `g` was written to the
/// table `e`, then `e` is sound for every graph `g0` in which the full
/// paths of the scopes of `g` that have one name a scope, and the entry of
/// every scope that was written is a scope element. So reading `e` into
/// such a graph does not fail.
pub proof fn lemma_written_is_sound(g: Graph, e: Table, w: Index, g0: Graph)
    requires
        graph_wf(g),
        written(g, e, w),
        readable_into(g, w, g0),
    ensures
        sound(e, g0),
        forall|s: usize| #[trigger] w.contains_key(s) ==> sound_scope_ref(e, w[s] as u64),
{
    assert forall|s: usize| #[trigger] w.contains_key(s) implies sound_scope_ref(e, w[s] as u64) by {
        assert(encodes_scope(g, e, w, s));
    }
    assert forall|i: int| 0 <= i < e.len() implies match #[trigger] e[i] {
        ElementView::UserScope(ss) => sound_user_scope(e, ss),
        ElementView::InternalScope(p) => names_scope(g0, p),
        _ => true,
    } by {
        if e[i] is UserScope || e[i] is InternalScope {
            assert(indexed(w, i));
            let s = choose|s: usize| #[trigger] w.contains_key(s) && w[s] == i;
            assert(encodes_scope(g, e, w, s));
            if let ElementView::UserScope(ss) = e[i] {
                let n = g[s as int];
                assert(encodes_node(e, w, ss, n));
                if let Some(p) = n.parent_scope {
                    assert(encodes_scope(g, e, w, p));
                }
                if let Some(c) = n.calling_scope {
                    assert(encodes_scope(g, e, w, c));
                }
                assert forall|j: int| 0 <= j < ss.uses.len() implies sound_scope_ref(e, #[trigger] ss.uses[j]) by {
                    assert(w.contains_key(n.uses[j]));
                    assert(encodes_scope(g, e, w, n.uses[j]));
                }
                assert forall|j: int| 0 <= j < ss.members.len() implies sound_member(e, #[trigger] ss.members[j]) by {
                    assert(encodes_member(e, w, ss.members[j], n.mapping[j]));
                    if let ValueView::Scope(t) = n.mapping[j].1 {
                        assert(encodes_scope(g, e, w, t as usize));
                    }
                }
            }
        }
    }
}


/// Round trip of the root. If the table `e` with the root index `root` is a
/// serialization of the scope `s` of `g`, and the element at `root` has been
/// read from `e`, then `s` was read back, and what it has become is the
/// scope that the element at `root` has become. The other laws of the round
/// trip then hold of `s` and, by way of its edges, of every scope that `s`
/// leads to.
pub proof fn lemma_round_trip_root(
    g: Graph,
    s: usize,
    e: Table,
    root: u64,
    g0: Graph,
    g2: Graph,
    m: Scopes,
)
    requires
        graph_wf(g),
        serialization_of(g, s, e, root),
        read_in_full(e, g0, g2, m),
        root <= usize::MAX,
        m.contains_key(root as usize),
    ensures
        exists|w: Index| #[trigger] written(g, e, w) && read_back(w, m, s) && image(w, m, s) == m[root as usize],
{
    let w = choose|w: Index| serialization_with(g, s, e, root, w);
    assert(written(g, e, w) && read_back(w, m, s) && image(w, m, s) == m[root as usize]);
}


/// Cycles are preserved. If the scope `b` is the caller of the scope `a`
/// and `a` is the parent of `b`, both were written in full and `a` was read
/// back, then `b` was read back too, and the two have become two scopes of
/// which the second is the caller of the first and the first the parent of
/// the second.
pub proof fn lemma_round_trip_cycle(
    g: Graph,
    e: Table,
    w: Index,
    g0: Graph,
    g2: Graph,
    m: Scopes,
    a: usize,
    b: usize,
)
    requires
        graph_wf(g),
        written(g, e, w),
        read_in_full(e, g0, g2, m),
        read_back(w, m, a),
        a != b,
        a < g.len(),
        b < g.len(),
        g[a as int].calling_scope == Some(b),
        g[b as int].parent_scope == Some(a),
        full_path_of(g, a as int) is None,
        full_path_of(g, b as int) is None,
    ensures
        read_back(w, m, b),
        image(w, m, a) != image(w, m, b),
        g2[image(w, m, a) as int].calling_scope == Some(image(w, m, b)),
        g2[image(w, m, b) as int].parent_scope == Some(image(w, m, a)),
{
    lemma_round_trip_scope(g, e, w, g0, g2, m, a);
    lemma_round_trip_scope(g, e, w, g0, g2, m, b);
    lemma_round_trip_identity(g, e, w, g0, g2, m, a, b);
}


/// The imports of a scope stay apart: where every scope that `s` imports
/// was written in full and read back, no two of them have become one scope,
/// so the imports of what `s` has become are what the imports of `s` have
/// become, in their order.
pub proof fn lemma_imports_stay_apart(g: Graph, e: Table, w: Index, g0: Graph, g2: Graph, m: Scopes, s: usize)
    requires
        graph_wf(g),
        written(g, e, w),
        read_in_full(e, g0, g2, m),
        s < g.len(),
        forall|j: int|
            0 <= j < g[s as int].uses.len() ==> read_back(w, m, #[trigger] g[s as int].uses[j]) && full_path_of(
                g,
                g[s as int].uses[j] as int,
            ) is None,
    ensures
        distinct_images(w, m, g[s as int].uses),
{
    let uses = g[s as int].uses;
    assert(node_wf(g[s as int], g.len()));
    assert forall|i: int, j: int| 0 <= i < j < uses.len() implies image(w, m, #[trigger] uses[i]) != image(
        w,
        m,
        #[trigger] uses[j],
    ) by {
        assert(uses[i] != uses[j]);
        lemma_round_trip_identity(g, e, w, g0, g2, m, uses[i], uses[j]);
    }
}

} // verus!
