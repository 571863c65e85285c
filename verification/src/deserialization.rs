//! Reading a scope graph back from a table of elements. Every scope element
//! is read once, whatever the number of references to it, so the graph that
//! comes out has the sharing and the cycles of the one that was written.

use vstd::prelude::*;
use std::collections::HashMap;
use crate::errors::{CrushError, CrushResult, ErrorKind, error, fails_with};
use crate::scope::{
    full_path_of,
    Graph, Mapping, ScopeGraph, ScopeDataView, graph_wf, node_wf, global_value_of, descend,
    rebound, imported, local_lookup, storable,
};
use crate::serialization::{
    Index, written,
    Element, ElementView, SerializedScope, SerializedScopeView, SerializedGraph, Name, Parent,
    Calling, Table, elements_view, is_plain, lemma_bounded_len,
};
use crate::text::strings_view;
use crate::value::{Value, ValueView};

verus! {

/// The scope that each scope element read so far has become.
pub type Scopes = Map<usize, usize>;

pub open spec fn is_scope_element(x: ElementView) -> bool {
    x is UserScope || x is InternalScope
}

/// The name that a serialized name stands for.
pub open spec fn decode_name(e: Table, name: Option<Name>) -> Option<Seq<char>> {
    match name {
        Some(Name::NameValue(k)) => Some(e[k as int]->String_0),
        _ => None,
    }
}

pub open spec fn decode_parent(m: Scopes, parent: Option<Parent>) -> Option<usize> {
    match parent {
        Some(Parent::ParentValue(p)) => Some(m[p as usize]),
        _ => None,
    }
}

pub open spec fn decode_calling(m: Scopes, calling: Option<Calling>) -> Option<usize> {
    match calling {
        Some(Calling::CallingValue(c)) => Some(m[c as usize]),
        _ => None,
    }
}

/// The imports that the first `k` serialized imports stand for: each is
/// imported in turn, so a scope that comes twice is imported once.
pub open spec fn decode_uses(m: Scopes, suses: Seq<u64>, k: nat) -> Seq<usize>
    decreases k,
{
    if k == 0 {
        Seq::empty()
    } else {
        imported(decode_uses(m, suses, (k - 1) as nat), m[suses[k - 1] as usize])
    }
}

/// The value that the element at `idx` stands for.
pub open spec fn decode_value(e: Table, m: Scopes, idx: u64) -> ValueView {
    match e[idx as int] {
        ElementView::Value(v) => v,
        _ => ValueView::Scope(m[idx as usize] as nat),
    }
}

/// The binding that the member element at `idx` stands for.
pub open spec fn decode_binding(e: Table, m: Scopes, idx: u64) -> (Seq<char>, ValueView) {
    let x = e[idx as int];
    (e[x->Member_name as int]->String_0, decode_value(e, m, x->Member_value))
}

/// The mapping that the first `k` serialized members stand for: each is bound
/// in turn, so a name that comes twice keeps its first place and its last
/// value.
pub open spec fn decode_members(e: Table, m: Scopes, smembers: Seq<u64>, k: nat) -> Mapping
    decreases k,
{
    if k == 0 {
        Seq::empty()
    } else {
        let b = decode_binding(e, m, smembers[k - 1]);
        rebound(decode_members(e, m, smembers, (k - 1) as nat), b.0, b.1)
    }
}

/// The node that a serialized scope stands for.
pub open spec fn decode_node(e: Table, m: Scopes, ss: SerializedScopeView) -> ScopeDataView {
    ScopeDataView {
        name: decode_name(e, ss.name),
        parent_scope: decode_parent(m, ss.parent),
        calling_scope: decode_calling(m, ss.calling),
        uses: decode_uses(m, ss.uses, ss.uses.len()),
        mapping: decode_members(e, m, ss.members, ss.members.len()),
        is_loop: ss.is_loop,
        is_stopped: ss.is_stopped,
        is_readonly: ss.is_readonly,
    }
}

/// `idx` is the index of a scope element.
pub open spec fn sound_scope_ref(e: Table, idx: u64) -> bool {
    idx < e.len() && is_scope_element(e[idx as int])
}

/// `idx` is the index of a string element.
pub open spec fn sound_string_ref(e: Table, idx: u64) -> bool {
    idx < e.len() && e[idx as int] is String
}

/// `idx` is the index of an element that stands for a value: a scope
/// element, or a value element that holds data.
pub open spec fn sound_value_ref(e: Table, idx: u64) -> bool {
    idx < e.len() && (is_scope_element(e[idx as int]) || (e[idx as int] matches ElementView::Value(v) && is_plain(
        v,
    )))
}

/// `idx` is the index of a member element whose name and value are sound.
pub open spec fn sound_member(e: Table, idx: u64) -> bool {
    &&& idx < e.len()
    &&& e[idx as int] matches ElementView::Member { name, value }
    &&& sound_string_ref(e, name)
    &&& sound_value_ref(e, value)
}

/// Every index of the serialized scope leads to an element of the right
/// kind.
pub open spec fn sound_user_scope(e: Table, ss: SerializedScopeView) -> bool {
    &&& ss.name matches Some(Name::NameValue(k)) ==> sound_string_ref(e, k)
    &&& ss.parent matches Some(Parent::ParentValue(p)) ==> sound_scope_ref(e, p)
    &&& ss.calling matches Some(Calling::CallingValue(c)) ==> sound_scope_ref(e, c)
    &&& forall|j: int| 0 <= j < ss.uses.len() ==> sound_scope_ref(e, #[trigger] ss.uses[j])
    &&& forall|j: int| 0 <= j < ss.members.len() ==> sound_member(e, #[trigger] ss.members[j])
}

/// Whether the path names a scope of the graph.
pub open spec fn names_scope(g: Graph, path: Seq<Seq<char>>) -> bool {
    global_value_of(g, path) matches Some(ValueView::Scope(_))
}

/// Every scope element of the table can be read into the graph `g0`: a scope
/// written in full is sound, and the path of every other names a scope of
/// `g0`.
pub open spec fn sound(e: Table, g0: Graph) -> bool {
    forall|i: int|
        0 <= i < e.len() ==> match #[trigger] e[i] {
            ElementView::UserScope(ss) => sound_user_scope(e, ss),
            ElementView::InternalScope(p) => names_scope(g0, p),
            _ => true,
        }
}

/// Every scope that the serialized scope refers to has been read.
pub open spec fn covers(e: Table, m: Scopes, ss: SerializedScopeView) -> bool {
    &&& ss.parent matches Some(Parent::ParentValue(p)) ==> m.contains_key(p as usize)
    &&& ss.calling matches Some(Calling::CallingValue(c)) ==> m.contains_key(c as usize)
    &&& forall|j: int| 0 <= j < ss.uses.len() ==> m.contains_key(#[trigger] ss.uses[j] as usize)
    &&& forall|j: int| 0 <= j < ss.members.len() ==> member_covered(e, m, #[trigger] ss.members[j])
}

/// The scope that the member's value refers to, if it refers to one, has
/// been read.
pub open spec fn member_covered(e: Table, m: Scopes, idx: u64) -> bool {
    let value = e[idx as int]->Member_value;
    !(e[value as int] is Value) ==> m.contains_key(value as usize)
}

/// The scope element `i` has been read in full: the scope it has become is
/// what the element stands for.
pub open spec fn decoded(e: Table, g0: Graph, g: Graph, m: Scopes, i: usize) -> bool {
    &&& m.contains_key(i)
    &&& i < e.len()
    &&& m[i] < g.len()
    &&& match e[i as int] {
        ElementView::UserScope(ss) => sound_user_scope(e, ss) && covers(e, m, ss) && g[m[i] as int] == decode_node(
            e,
            m,
            ss,
        ),
        ElementView::InternalScope(p) => global_value_of(g0, p) == Some(ValueView::Scope(m[i] as nat)),
        _ => false,
    }
}

/// The scope `k` is what a scope element that is written in full has
/// become.
pub open spec fn noted(e: Table, m: Scopes, k: int) -> bool {
    exists|i: usize| #[trigger] m.contains_key(i) && e[i as int] is UserScope && m[i] == k
}

/// What holds while scopes are being read into a graph that began as `g0`:
/// the scopes of `g0` are as they were, every scope that was added is what
/// a scope element has become, and every scope element read so far has
/// become a scope of its own, one of `g0` only where it names one.
pub open spec fn reading(e: Table, g0: Graph, g: Graph, m: Scopes) -> bool {
    &&& graph_wf(g)
    &&& graph_wf(g0)
    &&& g0.len() <= g.len()
    &&& forall|i: int| 0 <= i < g0.len() ==> #[trigger] g[i] == g0[i]
    &&& forall|k: int| g0.len() <= k < g.len() ==> #[trigger] noted(e, m, k)
    &&& m.dom().finite()
    &&& m.dom().len() <= e.len()
    &&& forall|i: usize| #[trigger]
        m.contains_key(i) ==> i < e.len() && m[i] < g.len() && is_scope_element(e[i as int]) && (e[i as int] is UserScope
            ==> m[i] >= g0.len()) && (e[i as int] matches ElementView::InternalScope(p) ==> m[i] < g0.len()
            && global_value_of(g0, p) == Some(ValueView::Scope(m[i] as nat)))
    &&& forall|i: usize, j: usize|
        m.contains_key(i) && m.contains_key(j) && e[i as int] is UserScope && e[j as int] is UserScope
            && #[trigger] m[i] == #[trigger] m[j] ==> i == j
}

/// One step of the reader, from the graph `g` and the scopes `m` to `g2` and
/// `m2`. Only the scope `x` may have changed among those that `g` had, and
/// every scope element that was read in the step, but for those of
/// `pending`, has been read in full.
pub open spec fn step(e: Table, g0: Graph, g: Graph, m: Scopes, g2: Graph, m2: Scopes, x: int, pending: Set<usize>) -> bool {
    &&& reading(e, g0, g2, m2)
    &&& g.len() <= g2.len()
    &&& forall|i: int| 0 <= i < g.len() && i != x ==> #[trigger] g2[i] == g[i]
    &&& forall|i: usize| #[trigger] m.contains_key(i) ==> m2.contains_key(i) && m2[i] == m[i]
    &&& forall|i: usize| #[trigger]
        m2.contains_key(i) && !m.contains_key(i) && !pending.contains(i) ==> decoded(e, g0, g2, m2, i)
    &&& m.dom().len() <= m2.dom().len()
}

pub open spec fn sub_scopes(m: Scopes, m2: Scopes) -> bool {
    forall|i: usize| #[trigger] m.contains_key(i) ==> m2.contains_key(i) && m2[i] == m[i]
}

pub proof fn lemma_decode_uses_stable(m: Scopes, m2: Scopes, suses: Seq<u64>, k: nat)
    requires
        sub_scopes(m, m2),
        k <= suses.len(),
        forall|j: int| 0 <= j < k ==> m.contains_key(#[trigger] suses[j] as usize),
    ensures
        decode_uses(m2, suses, k) == decode_uses(m, suses, k),
    decreases k,
{
    if k > 0 {
        lemma_decode_uses_stable(m, m2, suses, (k - 1) as nat);
        assert(m.contains_key(suses[k - 1] as usize));
    }
}

pub proof fn lemma_decode_members_stable(
    e: Table,
    m: Scopes,
    m2: Scopes,
    smembers: Seq<u64>,
    k: nat,
)
    requires
        sub_scopes(m, m2),
        k <= smembers.len(),
        forall|j: int| 0 <= j < k ==> member_covered(e, m, #[trigger] smembers[j]),
    ensures
        decode_members(e, m2, smembers, k) == decode_members(e, m, smembers, k),
    decreases k,
{
    if k > 0 {
        lemma_decode_members_stable(e, m, m2, smembers, (k - 1) as nat);
        assert(member_covered(e, m, smembers[k - 1]));
    }
}

pub proof fn lemma_decode_node_stable(e: Table, m: Scopes, m2: Scopes, ss: SerializedScopeView)
    requires
        sub_scopes(m, m2),
        covers(e, m, ss),
    ensures
        covers(e, m2, ss),
        decode_node(e, m2, ss) == decode_node(e, m, ss),
{
    lemma_decode_uses_stable(m, m2, ss.uses, ss.uses.len());
    lemma_decode_members_stable(e, m, m2, ss.members, ss.members.len());
    assert forall|j: int| 0 <= j < ss.members.len() implies member_covered(e, m2, #[trigger] ss.members[j]) by {
        assert(member_covered(e, m, ss.members[j]));
    }
}

/// An element that has been read in full stays so when the scope it has
/// become does not change and no scope element loses its scope.
pub proof fn lemma_decoded_stable(
    e: Table,
    g0: Graph,
    g: Graph,
    m: Scopes,
    g2: Graph,
    m2: Scopes,
    i: usize,
)
    requires
        decoded(e, g0, g, m, i),
        sub_scopes(m, m2),
        g.len() <= g2.len(),
        g2[m[i] as int] == g[m[i] as int],
    ensures
        decoded(e, g0, g2, m2, i),
{
    if e[i as int] is UserScope {
        lemma_decode_node_stable(e, m, m2, e[i as int]->UserScope_0);
    }
}

/// Two steps of the reader make one, when both spare the scope that the
/// pending element `id` has become.
pub proof fn lemma_step_trans(
    e: Table,
    g0: Graph,
    g: Graph,
    m: Scopes,
    g2: Graph,
    m2: Scopes,
    g3: Graph,
    m3: Scopes,
    x: int,
    id: usize,
)
    requires
        step(e, g0, g, m, g2, m2, x, set![id]),
        step(e, g0, g2, m2, g3, m3, x, set![id]),
        m2.contains_key(id),
        m2[id] == x,
        e[id as int] is UserScope,
    ensures
        step(e, g0, g, m, g3, m3, x, set![id]),
{
    assert forall|i: usize| #[trigger] m3.contains_key(i) && !m.contains_key(i) && !set![id].contains(i) implies decoded(
        e,
        g0,
        g3,
        m3,
        i,
    ) by {
        if m2.contains_key(i) {
            assert(decoded(e, g0, g2, m2, i));
            assert(m2[i] != x) by {
                if e[i as int] is UserScope {
                } else {
                    assert(m2[i] < g0.len());
                }
            }
            lemma_decoded_stable(e, g0, g2, m2, g3, m3, i);
        }
    }
}

/// Following a path in a graph that has grown gives what it gave before.
pub proof fn lemma_descend_stable(g0: Graph, g: Graph, s: int, path: Seq<Seq<char>>, k: int)
    requires
        graph_wf(g0),
        g0.len() <= g.len(),
        forall|i: int| 0 <= i < g0.len() ==> #[trigger] g[i] == g0[i],
        0 <= s < g0.len(),
    ensures
        descend(g, s, path, k) == descend(g0, s, path, k),
    decreases path.len() - k,
{
    if 0 <= k < path.len() {
        assert(g[s] == g0[s]);
        assert(node_wf(g0[s], g0.len()));
        match local_lookup(g0[s].mapping, path[k]) {
            None => {},
            Some(v) => {
                if k + 1 != path.len() {
                    if let ValueView::Scope(t) = v {
                        crate::scope::lemma_lookup_is_binding(g0[s].mapping, path[k]);
                        assert(t < g0.len());
                        lemma_descend_stable(g0, g, t as int, path, k + 1);
                    }
                }
            },
        }
    }
}

/// A full path names in a graph that has grown what it named before.
pub proof fn lemma_global_value_stable(g0: Graph, g: Graph, path: Seq<Seq<char>>)
    requires
        graph_wf(g0),
        g0.len() <= g.len(),
        forall|i: int| 0 <= i < g0.len() ==> #[trigger] g[i] == g0[i],
    ensures
        global_value_of(g, path) == global_value_of(g0, path),
{
    assert(g[0] == g0[0]);
    lemma_descend_stable(g0, g, 0, path, 1);
}


/// What the reader remembers: the scope that every scope element read so far
/// has become, and the environment that the scopes are read into.
pub struct DeserializationState {
    pub scopes: HashMap<usize, usize>,
    pub env: ScopeGraph,
    /// The environment as it was when nothing had been read into it.
    pub base: Ghost<Graph>,
}

impl DeserializationState {
    /// A reader that has read nothing into `env` yet.
    pub fn new(env: ScopeGraph) -> (state: DeserializationState)
        requires
            env.wf(),
        ensures
            state.env@ == env@,
            state.base@ == env@,
            state.scopes@ == Map::<usize, usize>::empty(),
            forall|e: Table| state.reading(e),
    {
        let state = DeserializationState { scopes: HashMap::new(), env, base: Ghost(env@) };
        assert forall|e: Table| state.reading(e) by {
            assert(state.scopes@.dom() =~= Set::empty());
        }
        state
    }

    /// The state is one that the reader of the table `e` can go on from.
    pub open spec fn reading(&self, e: Table) -> bool {
        reading(e, self.base@, self.env@, self.scopes@)
    }

    /// The reader of the table `e` has gone from `self` to `next`.
    pub open spec fn advances_to(&self, e: Table, next: &DeserializationState, x: int, pending: Set<usize>) -> bool {
        &&& next.base@ == self.base@
        &&& step(e, self.base@, self.env@, self.scopes@, next.env@, next.scopes@, x, pending)
    }

    /// The state is one in which the scope `res`, which the element `id` has
    /// become, is being filled in.
    pub open spec fn filling(&self, e: Table, id: usize, res: usize) -> bool {
        &&& self.reading(e)
        &&& self.scopes@.contains_key(id)
        &&& self.scopes@[id] == res
        &&& e[id as int] is UserScope
    }
}

/// The number of elements of the table that have not become a scope.
pub open spec fn unread(e: Table, m: Scopes) -> int {
    e.len() - m.dom().len()
}

/// What the reader owes when it fails: the table is not sound.
pub open spec fn rejected<T>(e: Table, g0: Graph, r: CrushResult<T>) -> bool {
    &&& !sound(e, g0)
    &&& r matches Err(err)
    &&& err.kind == ErrorKind::Generic
}

pub proof fn lemma_step_refl(e: Table, g0: Graph, g: Graph, m: Scopes, x: int, pending: Set<usize>)
    requires
        reading(e, g0, g, m),
    ensures
        step(e, g0, g, m, g, m, x, pending),
{
}

/// A step that changes no scope and leaves no element pending is a step
/// that may change `x` and leave `pending` pending.
pub proof fn lemma_step_weaken(
    e: Table,
    g0: Graph,
    g: Graph,
    m: Scopes,
    g2: Graph,
    m2: Scopes,
    x: int,
    pending: Set<usize>,
)
    requires
        step(e, g0, g, m, g2, m2, -1, Set::empty()),
    ensures
        step(e, g0, g, m, g2, m2, x, pending),
{
}

/// A change of the scope that is being filled in is a step of the reader.
pub proof fn lemma_step_fill(
    e: Table,
    g0: Graph,
    g: Graph,
    m: Scopes,
    g2: Graph,
    id: usize,
    res: usize,
)
    requires
        reading(e, g0, g, m),
        m.contains_key(id),
        m[id] == res,
        e[id as int] is UserScope,
        graph_wf(g2),
        g2.len() == g.len(),
        forall|i: int| 0 <= i < g.len() && i != res ==> #[trigger] g2[i] == g[i],
    ensures
        step(e, g0, g, m, g2, m, res as int, set![id]),
{
    assert forall|k: int| g0.len() <= k < g2.len() implies #[trigger] noted(e, m, k) by {
        assert(noted(e, m, k));
    }
}

/// Creating the scope of a scope element and noting it is a step of the
/// reader that leaves the element pending.
proof fn lemma_created(
    e: Table,
    g0: Graph,
    ga: Graph,
    ma: Scopes,
    g1: Graph,
    m1: Scopes,
    id: usize,
    res: usize,
)
    requires
        reading(e, g0, ga, ma),
        !ma.contains_key(id),
        id < e.len(),
        e[id as int] is UserScope,
        res == ga.len(),
        graph_wf(g1),
        g1.len() == ga.len() + 1,
        forall|i: int| 0 <= i < ga.len() ==> #[trigger] g1[i] == ga[i],
        m1 == ma.insert(id, res),
    ensures
        reading(e, g0, g1, m1),
        step(e, g0, ga, ma, g1, m1, res as int, set![id]),
        unread(e, m1) < unread(e, ma),
        unread(e, m1) >= 0,
{
    assert forall|k: int| g0.len() <= k < g1.len() implies #[trigger] noted(e, m1, k) by {
        if k < ga.len() {
            assert(noted(e, ma, k));
            let i = choose|i: usize| #[trigger] ma.contains_key(i) && e[i as int] is UserScope && ma[i] == k;
            assert(m1.contains_key(i) && m1[i] == k);
        } else {
            assert(m1.contains_key(id) && m1[id] == k);
        }
    }
    assert forall|i: usize| m1.dom().contains(i) implies i < e.len() by {
        if i != id {
            assert(ma.contains_key(i));
        }
    }
    lemma_bounded_len(m1.dom(), e.len());
    assert forall|i: usize, j: usize|
        m1.contains_key(i) && m1.contains_key(j) && e[i as int] is UserScope && e[j as int] is UserScope
            && #[trigger] m1[i] == #[trigger] m1[j] implies i == j by {
        if i != id {
            assert(ma.contains_key(i));
        }
        if j != id {
            assert(ma.contains_key(j));
        }
    }
    assert forall|i: usize| #[trigger] m1.contains_key(i) implies i < e.len() && m1[i] < g1.len() && is_scope_element(e[i as int]) && (
    e[i as int] is UserScope ==> m1[i] >= g0.len()) && (e[i as int] matches ElementView::InternalScope(p) ==> m1[i]
        < g0.len() && global_value_of(g0, p) == Some(ValueView::Scope(m1[i] as nat))) by {
        if i != id {
            assert(ma.contains_key(i));
        }
    }
    assert forall|i: int| 0 <= i < g0.len() implies #[trigger] g1[i] == g0[i] by {
        assert(ga[i] == g0[i]);
    }
}

/// When the scope of a scope element has been filled in, the steps from
/// before its creation make one step that changes no older scope and leaves
/// nothing pending.
proof fn lemma_filled(
    e: Table,
    g0: Graph,
    ga: Graph,
    ma: Scopes,
    g1: Graph,
    m1: Scopes,
    g5: Graph,
    m5: Scopes,
    id: usize,
    res: usize,
)
    requires
        reading(e, g0, ga, ma),
        !ma.contains_key(id),
        res == ga.len(),
        step(e, g0, ga, ma, g1, m1, res as int, set![id]),
        step(e, g0, g1, m1, g5, m5, res as int, set![id]),
        m1.contains_key(id),
        m1[id] == res,
        decoded(e, g0, g5, m5, id),
    ensures
        step(e, g0, ga, ma, g5, m5, -1, Set::empty()),
{
    lemma_step_trans(e, g0, ga, ma, g1, m1, g5, m5, res as int, id);
    assert forall|i: usize| #[trigger] m5.contains_key(i) && !ma.contains_key(i) && !Set::<usize>::empty().contains(i) implies decoded(
        e,
        g0,
        g5,
        m5,
        i,
    ) by {
        if i != id {
            assert(!set![id].contains(i));
        }
    }
}

/// Noting the scope that a path names is a step of the reader.
proof fn lemma_resolved(e: Table, g0: Graph, ga: Graph, ma: Scopes, m1: Scopes, id: usize, t: usize)
    requires
        reading(e, g0, ga, ma),
        !ma.contains_key(id),
        id < e.len(),
        e[id as int] matches ElementView::InternalScope(p) && global_value_of(g0, p) == Some(ValueView::Scope(t as nat)),
        t < g0.len(),
        m1 == ma.insert(id, t),
    ensures
        step(e, g0, ga, ma, ga, m1, -1, Set::empty()),
{
    assert forall|k: int| g0.len() <= k < ga.len() implies #[trigger] noted(e, m1, k) by {
        assert(noted(e, ma, k));
        let i = choose|i: usize| #[trigger] ma.contains_key(i) && e[i as int] is UserScope && ma[i] == k;
        assert(m1.contains_key(i) && m1[i] == k);
    }
    assert forall|i: usize| m1.dom().contains(i) implies i < e.len() by {
        if i != id {
            assert(ma.contains_key(i));
        }
    }
    lemma_bounded_len(m1.dom(), e.len());
    assert forall|i: usize, j: usize|
        m1.contains_key(i) && m1.contains_key(j) && e[i as int] is UserScope && e[j as int] is UserScope
            && #[trigger] m1[i] == #[trigger] m1[j] implies i == j by {
        if i != id {
            assert(ma.contains_key(i));
        }
        if j != id {
            assert(ma.contains_key(j));
        }
    }
    assert forall|i: usize| #[trigger] m1.contains_key(i) implies i < e.len() && m1[i] < ga.len() && is_scope_element(e[i as int]) && (
    e[i as int] is UserScope ==> m1[i] >= g0.len()) && (e[i as int] matches ElementView::InternalScope(p) ==> m1[i]
        < g0.len() && global_value_of(g0, p) == Some(ValueView::Scope(m1[i] as nat))) by {
        if i != id {
            assert(ma.contains_key(i));
        }
    }
    assert(ma.dom().len() <= m1.dom().len()) by {
        assert(m1.dom() =~= ma.dom().insert(id));
    }
}

/// The scope element that the member element at `midx` refers to as its
/// value, if it refers to one.
pub open spec fn member_scope(e: Table, midx: u64) -> Option<usize> {
    if midx < e.len() && e[midx as int] is Member && e[midx as int]->Member_value <= usize::MAX && !(
    e[e[midx as int]->Member_value as int] is Value) {
        Some(e[midx as int]->Member_value as usize)
    } else {
        None
    }
}

/// The element `j` is one step from the scope element `i`, which is written
/// in full: its parent, its caller, one of its imports, or a scope that one
/// of its members refers to.
pub open spec fn element_edge(e: Table, i: usize, j: usize) -> bool {
    &&& i < e.len()
    &&& e[i as int] is UserScope
    &&& {
        let ss = e[i as int]->UserScope_0;
        ||| ss.parent == Some(Parent::ParentValue(j as u64))
        ||| ss.calling == Some(Calling::CallingValue(j as u64))
        ||| exists|k: int| 0 <= k < ss.uses.len() && #[trigger] ss.uses[k] == j
        ||| exists|k: int| 0 <= k < ss.members.len() && member_scope(e, #[trigger] ss.members[k]) == Some(j)
    }
}

/// The element `j` is `n` steps from the element `i`.
pub open spec fn element_leads(e: Table, i: usize, j: usize, n: nat) -> bool
    decreases n,
{
    if n == 0 {
        i == j
    } else {
        exists|u: usize| #[trigger] element_edge(e, u, j) && element_leads(e, i, u, (n - 1) as nat)
    }
}

/// The reader comes to the element `j` when it reads the element `i`.
pub open spec fn element_reaches(e: Table, i: usize, j: usize) -> bool {
    exists|n: nat| element_leads(e, i, j, n)
}

/// Every element that `m2` has and `m` has not is one that the reader comes
/// to from the element `from`.
pub open spec fn read_from(e: Table, from: usize, m: Scopes, m2: Scopes) -> bool {
    forall|i: usize| #[trigger] m2.contains_key(i) && !m.contains_key(i) ==> element_reaches(e, from, i)
}

pub proof fn lemma_element_leads_after_edge(e: Table, s: usize, u: usize, t: usize, n: nat)
    requires
        element_edge(e, s, u),
        element_leads(e, u, t, n),
    ensures
        element_leads(e, s, t, n + 1),
    decreases n,
{
    if n == 0 {
        assert(element_leads(e, s, s, 0));
        assert(element_edge(e, s, t));
    } else {
        let v = choose|v: usize| #[trigger] element_edge(e, v, t) && element_leads(e, u, v, (n - 1) as nat);
        lemma_element_leads_after_edge(e, s, u, v, (n - 1) as nat);
        assert(element_edge(e, v, t) && element_leads(e, s, v, n));
    }
}

/// What is read from an element that is one step from `s` is read from `s`.
pub proof fn lemma_read_after_edge(e: Table, s: usize, u: usize, m: Scopes, m2: Scopes)
    requires
        element_edge(e, s, u),
        read_from(e, u, m, m2),
    ensures
        read_from(e, s, m, m2),
{
    assert forall|i: usize| #[trigger] m2.contains_key(i) && !m.contains_key(i) implies element_reaches(e, s, i) by {
        let n = choose|n: nat| element_leads(e, u, i, n);
        lemma_element_leads_after_edge(e, s, u, i, n);
    }
}

pub proof fn lemma_read_from_trans(e: Table, s: usize, m: Scopes, m2: Scopes, m3: Scopes)
    requires
        read_from(e, s, m, m2),
        read_from(e, s, m2, m3),
    ensures
        read_from(e, s, m, m3),
{
}

/// Noting the element that is read is reading from it.
pub proof fn lemma_read_first(e: Table, s: usize, m: Scopes, t: usize)
    ensures
        read_from(e, s, m, m.insert(s, t)),
{
    assert(element_leads(e, s, s, 0));
}

/// The reader has read every scope element that it comes to from an element
/// that it has read.
pub proof fn lemma_read_is_closed(e: Table, g0: Graph, g: Graph, m: Scopes, i: usize, j: usize, n: nat)
    requires
        m.contains_key(i),
        forall|k: usize| #[trigger] m.contains_key(k) ==> decoded(e, g0, g, m, k),
        element_leads(e, i, j, n),
    ensures
        m.contains_key(j),
    decreases n,
{
    if n > 0 {
        let u = choose|u: usize| #[trigger] element_edge(e, u, j) && element_leads(e, i, u, (n - 1) as nat);
        lemma_read_is_closed(e, g0, g, m, i, u, (n - 1) as nat);
        assert(decoded(e, g0, g, m, u));
        let ss = e[u as int]->UserScope_0;
        assert(covers(e, m, ss));
        if ss.parent == Some(Parent::ParentValue(j as u64)) {
        } else if ss.calling == Some(Calling::CallingValue(j as u64)) {
        } else if exists|k: int| 0 <= k < ss.uses.len() && #[trigger] ss.uses[k] == j {
            let k = choose|k: int| 0 <= k < ss.uses.len() && #[trigger] ss.uses[k] == j;
            assert(m.contains_key(ss.uses[k] as usize));
        } else {
            let k = choose|k: int| 0 <= k < ss.members.len() && member_scope(e, #[trigger] ss.members[k]) == Some(j);
            assert(member_covered(e, m, ss.members[k]));
        }
    }
}

/// What a reader that began with nothing has noted are the scope elements
/// that it comes to from the element it was asked for, each read in full.
pub proof fn lemma_fresh_read_is_exact(e: Table, g0: Graph, ga: Graph, g: Graph, m: Scopes, id: usize)
    requires
        step(e, g0, ga, Map::<usize, usize>::empty(), g, m, -1, Set::<usize>::empty()),
        m.contains_key(id),
        read_from(e, id, Map::<usize, usize>::empty(), m),
    ensures
        read_in_full(e, g0, g, m),
        forall|i: usize|
            #![trigger m.contains_key(i)]
            #![trigger element_reaches(e, id, i)]
            m.contains_key(i) == element_reaches(e, id, i),
{
    assert forall|i: usize| #[trigger] m.contains_key(i) implies decoded(e, g0, g, m, i) by {
        assert(!Set::<usize>::empty().contains(i));
    }
    assert forall|i: usize|
        #![trigger m.contains_key(i)]
        #![trigger element_reaches(e, id, i)]
        m.contains_key(i) == element_reaches(e, id, i) by {
        if element_reaches(e, id, i) {
            let n = choose|n: nat| element_leads(e, id, i, n);
            lemma_read_is_closed(e, g0, g, m, id, i, n);
        }
    }
}

/// What is wrong with `idx` as the index of a string element, if anything.
pub open spec fn string_fault(e: Table, idx: u64) -> Option<Seq<char>> {
    if idx >= e.len() {
        Some("Invalid element index"@)
    } else if !(e[idx as int] is String) {
        Some("Expected a string"@)
    } else {
        None
    }
}

/// The failure that reading the element `id` ends in before anything is
/// created or noted, if it ends so: the element is not there, is no scope
/// element, names a scope by a path that names none, or has a name that is
/// no string.
pub open spec fn early_fault(e: Table, g0: Graph, m: Scopes, id: int) -> Option<Seq<char>> {
    if 0 <= id <= usize::MAX && m.contains_key(id as usize) {
        None
    } else if id < 0 || id >= e.len() {
        Some("Invalid element index"@)
    } else {
        match e[id] {
            ElementView::InternalScope(p) => match global_value_of(g0, p) {
                Some(ValueView::Scope(_)) => None,
                Some(_) => Some("Value is not a scope"@),
                None => Some("Invalid path for scope lookup"@),
            },
            ElementView::UserScope(ss) => match ss.name {
                Some(Name::NameValue(n)) => string_fault(e, n),
                _ => None,
            },
            _ => Some("Expected a scope"@),
        }
    }
}

impl DeserializationState {
    /// The state `next` is the state `self`: nothing was created and
    /// nothing was noted.
    pub open spec fn undisturbed(&self, next: &DeserializationState) -> bool {
        &&& next.scopes@ == self.scopes@
        &&& next.env@ == self.env@
        &&& next.base@ == self.base@
    }
}

/// The string element at `idx`.
fn read_string(elements: &Vec<Element>, idx: u64) -> (r: CrushResult<String>)
    ensures
        match r {
            Ok(s) => sound_string_ref(elements_view(elements), idx) && elements_view(elements)[idx as int]
                == ElementView::String(s@) && string_fault(elements_view(elements), idx) is None,
            Err(err) => !sound_string_ref(elements_view(elements), idx) && string_fault(
                elements_view(elements),
                idx,
            ) is Some && fails_with(r, ErrorKind::Generic, string_fault(elements_view(elements), idx)->0),
        },
{
    if idx >= elements.len() as u64 {
        return error("Invalid element index");
    }
    match &elements[idx as usize] {
        Element::String(s) => Ok(s.clone()),
        _ => error("Expected a string"),
    }
}

/// Whether a value is written out as it is: data through and through.
pub fn plain(value: &Value) -> (r: bool)
    ensures
        r == is_plain(value@),
{
    value.is_data()
}

/// The scope that the scope element at `idx` stands for.
fn deserialize_ref(
    idx: u64,
    elements: &Vec<Element>,
    state: &mut DeserializationState,
) -> (r: CrushResult<usize>)
    requires
        old(state).reading(elements_view(elements)),
    ensures
        match r {
            Ok(t) => old(state).advances_to(elements_view(elements), final(state), -1, Set::empty())
                && read_from(elements_view(elements), idx as usize, old(state).scopes@, final(state).scopes@)
                && sound_scope_ref(elements_view(elements), idx) && final(state).scopes@.contains_key(idx as usize)
                && final(state).scopes@[idx as usize] == t,
            Err(err) => (!sound(elements_view(elements), old(state).base@) || !sound_scope_ref(
                elements_view(elements),
                idx,
            )) && err.kind == ErrorKind::Generic,
        },
        idx <= usize::MAX && old(state).scopes@.contains_key(idx as usize) ==> r == Ok::<usize, CrushError>(
            old(state).scopes@[idx as usize],
        ) && old(state).undisturbed(final(state)),
        early_fault(elements_view(elements), old(state).base@, old(state).scopes@, idx as int) matches Some(m)
            ==> fails_with(r, ErrorKind::Generic, m) && old(state).undisturbed(final(state)),
    decreases unread(elements_view(elements), old(state).scopes@), 1int,
{
    if idx >= elements.len() as u64 {
        return error("Invalid element index");
    }
    deserialize_scope(idx as usize, elements, state)
}

/// The value that the element at `idx` stands for: a reference to the scope
/// that a scope element stands for, or the data of a value element.
pub fn deserialize_value(
    idx: u64,
    elements: &Vec<Element>,
    state: &mut DeserializationState,
) -> (r: CrushResult<Value>)
    requires
        old(state).reading(elements_view(elements)),
    ensures
        match r {
            Ok(v) => old(state).advances_to(elements_view(elements), final(state), -1, Set::empty())
                && read_from(elements_view(elements), idx as usize, old(state).scopes@, final(state).scopes@)
                && (elements_view(elements)[idx as int] is Value ==> final(state).scopes@ == old(state).scopes@)
                && sound_value_ref(elements_view(elements), idx) && v@ == decode_value(
                elements_view(elements),
                final(state).scopes@,
                idx,
            ) && (!(elements_view(elements)[idx as int] is Value) ==> final(state).scopes@.contains_key(idx as usize))
                && storable(v@, final(state).env@.len()),
            Err(err) => (!sound(elements_view(elements), old(state).base@) || !sound_value_ref(
                elements_view(elements),
                idx,
            )) && err.kind == ErrorKind::Generic,
        },
    decreases unread(elements_view(elements), old(state).scopes@), 1int,
{
    let ghost e = elements_view(elements);
    if idx >= elements.len() as u64 {
        return error("Invalid element index");
    }
    match &elements[idx as usize] {
        Element::Value(v) => {
            if plain(v) {
                proof {
                    lemma_step_refl(e, state.base@, state.env@, state.scopes@, -1, Set::empty());
                }
                Ok(v.duplicate())
            } else {
                error("Expected a plain value")
            }
        },
        Element::UserScope(_) | Element::InternalScope(_) => {
            match deserialize_scope(idx as usize, elements, state) {
                Ok(t) => Ok(Value::Scope(t)),
                Err(err) => Err(err),
            }
        },
        _ => error("Expected a value"),
    }
}

/// Reads the parent of the scope `res`, which the element `id` has become.
fn read_parent(
    res: usize,
    id: usize,
    ss: &SerializedScope,
    elements: &Vec<Element>,
    state: &mut DeserializationState,
) -> (r: CrushResult<()>)
    requires
        old(state).filling(elements_view(elements), id, res),
        elements_view(elements)[id as int] == ElementView::UserScope(ss@),
    ensures
        match r {
            Ok(_) => old(state).advances_to(elements_view(elements), final(state), res as int, set![id])
                && read_from(elements_view(elements), id, old(state).scopes@, final(state).scopes@)
                && final(state).filling(elements_view(elements), id, res)
                && (ss.parent matches Some(Parent::ParentValue(p)) ==> sound_scope_ref(elements_view(elements), p)
                    && final(state).scopes@.contains_key(p as usize))
                && final(state).env@[res as int] == (ScopeDataView {
                parent_scope: if ss.parent matches Some(Parent::ParentValue(_)) {
                    decode_parent(final(state).scopes@, ss.parent)
                } else {
                    old(state).env@[res as int].parent_scope
                },
                ..old(state).env@[res as int]
            }),
            Err(_) => rejected(elements_view(elements), old(state).base@, r),
        },
    decreases unread(elements_view(elements), old(state).scopes@), 2int,
{
    let ghost e = elements_view(elements);
    let ghost g0 = state.base@;
    let ghost ga = state.env@;
    let ghost ma = state.scopes@;
    match ss.parent {
        Some(Parent::ParentValue(p)) => {
            match deserialize_ref(p, elements, state) {
                Ok(t) => {
                    let ghost gb = state.env@;
                    let ghost mb = state.scopes@;
                    state.env.set_parent(res, Some(t));
                    proof {
                        assert(element_edge(e, id, p as usize));
                        lemma_read_after_edge(e, id, p as usize, ma, mb);
                        lemma_step_weaken(e, g0, ga, ma, gb, mb, res as int, set![id]);
                        lemma_step_fill(e, g0, gb, mb, state.env@, id, res);
                        lemma_step_trans(e, g0, ga, ma, gb, mb, state.env@, mb, res as int, id);
                    }
                    Ok(())
                },
                Err(err) => {
                    proof {
                        if sound(e, g0) {
                            assert(sound_user_scope(e, e[id as int]->UserScope_0));
                        }
                    }
                    Err(err)
                },
            }
        },
        _ => {
            proof {
                lemma_step_refl(e, g0, ga, ma, res as int, set![id]);
            }
            Ok(())
        },
    }
}

/// Reads the caller of the scope `res`, which the element `id` has become.
fn read_calling(
    res: usize,
    id: usize,
    ss: &SerializedScope,
    elements: &Vec<Element>,
    state: &mut DeserializationState,
) -> (r: CrushResult<()>)
    requires
        old(state).filling(elements_view(elements), id, res),
        elements_view(elements)[id as int] == ElementView::UserScope(ss@),
    ensures
        match r {
            Ok(_) => old(state).advances_to(elements_view(elements), final(state), res as int, set![id])
                && read_from(elements_view(elements), id, old(state).scopes@, final(state).scopes@)
                && final(state).filling(elements_view(elements), id, res)
                && (ss.calling matches Some(Calling::CallingValue(c)) ==> sound_scope_ref(elements_view(elements), c)
                    && final(state).scopes@.contains_key(c as usize))
                && final(state).env@[res as int] == (ScopeDataView {
                calling_scope: if ss.calling matches Some(Calling::CallingValue(_)) {
                    decode_calling(final(state).scopes@, ss.calling)
                } else {
                    old(state).env@[res as int].calling_scope
                },
                ..old(state).env@[res as int]
            }),
            Err(_) => rejected(elements_view(elements), old(state).base@, r),
        },
    decreases unread(elements_view(elements), old(state).scopes@), 2int,
{
    let ghost e = elements_view(elements);
    let ghost g0 = state.base@;
    let ghost ga = state.env@;
    let ghost ma = state.scopes@;
    match ss.calling {
        Some(Calling::CallingValue(c)) => {
            match deserialize_ref(c, elements, state) {
                Ok(t) => {
                    let ghost gb = state.env@;
                    let ghost mb = state.scopes@;
                    state.env.set_calling(res, Some(t));
                    proof {
                        assert(element_edge(e, id, c as usize));
                        lemma_read_after_edge(e, id, c as usize, ma, mb);
                        lemma_step_weaken(e, g0, ga, ma, gb, mb, res as int, set![id]);
                        lemma_step_fill(e, g0, gb, mb, state.env@, id, res);
                        lemma_step_trans(e, g0, ga, ma, gb, mb, state.env@, mb, res as int, id);
                    }
                    Ok(())
                },
                Err(err) => {
                    proof {
                        if sound(e, g0) {
                            assert(sound_user_scope(e, e[id as int]->UserScope_0));
                        }
                    }
                    Err(err)
                },
            }
        },
        _ => {
            proof {
                lemma_step_refl(e, g0, ga, ma, res as int, set![id]);
            }
            Ok(())
        },
    }
}

/// Reads the imports of the scope `res`, which the element `id` has become.
fn read_uses(
    res: usize,
    id: usize,
    ss: &SerializedScope,
    elements: &Vec<Element>,
    state: &mut DeserializationState,
) -> (r: CrushResult<()>)
    requires
        old(state).filling(elements_view(elements), id, res),
        elements_view(elements)[id as int] == ElementView::UserScope(ss@),
        old(state).env@[res as int].uses == Seq::<usize>::empty(),
    ensures
        match r {
            Ok(_) => old(state).advances_to(elements_view(elements), final(state), res as int, set![id])
                && read_from(elements_view(elements), id, old(state).scopes@, final(state).scopes@)
                && final(state).filling(elements_view(elements), id, res)
                && (forall|j: int| 0 <= j < ss.uses.len() ==> sound_scope_ref(elements_view(elements), #[trigger] ss.uses[j])
                    && final(state).scopes@.contains_key(ss.uses[j] as usize))
                && final(state).env@[res as int] == (ScopeDataView {
                uses: decode_uses(final(state).scopes@, ss.uses@, ss.uses.len() as nat),
                ..old(state).env@[res as int]
            }),
            Err(_) => rejected(elements_view(elements), old(state).base@, r),
        },
    decreases unread(elements_view(elements), old(state).scopes@), 2int,
{
    let ghost e = elements_view(elements);
    let ghost g0 = state.base@;
    let ghost ga = state.env@;
    let ghost ma = state.scopes@;
    let mut k: usize = 0;
    proof {
        lemma_step_refl(e, g0, ga, ma, res as int, set![id]);
        assert(ga[res as int] == (ScopeDataView { uses: decode_uses(ma, ss.uses@, 0), ..ga[res as int] }));
    }
    while k < ss.uses.len()
        invariant
            k <= ss.uses.len(),
            e == elements_view(elements),
            e[id as int] == ElementView::UserScope(ss@),
            g0 == old(state).base@,
            ga == old(state).env@,
            ma == old(state).scopes@,
            state.base@ == g0,
            state.filling(e, id, res),
            step(e, g0, ga, ma, state.env@, state.scopes@, res as int, set![id]),
            forall|j: int| 0 <= j < k ==> sound_scope_ref(e, #[trigger] ss.uses[j]) && state.scopes@.contains_key(ss.uses[j] as usize),
            read_from(e, id, ma, state.scopes@),
            state.env@[res as int] == (ScopeDataView {
                uses: decode_uses(state.scopes@, ss.uses@, k as nat),
                ..ga[res as int]
            }),
        decreases ss.uses.len() - k,
    {
        let ghost gb = state.env@;
        let ghost mb = state.scopes@;
        match deserialize_ref(ss.uses[k], elements, state) {
            Ok(t) => {
                let ghost gc = state.env@;
                let ghost mc = state.scopes@;
                state.env.use_scope(res, t);
                proof {
                    assert(ss@.uses[k as int] == ss.uses[k as int]);
                    assert(element_edge(e, id, ss.uses[k as int] as usize));
                    lemma_read_after_edge(e, id, ss.uses[k as int] as usize, mb, mc);
                    lemma_read_from_trans(e, id, ma, mb, mc);
                    lemma_step_weaken(e, g0, gb, mb, gc, mc, res as int, set![id]);
                    lemma_step_trans(e, g0, ga, ma, gb, mb, gc, mc, res as int, id);
                    lemma_step_fill(e, g0, gc, mc, state.env@, id, res);
                    lemma_step_trans(e, g0, ga, ma, gc, mc, state.env@, mc, res as int, id);
                    lemma_decode_uses_stable(mb, mc, ss.uses@, k as nat);
                }
            },
            Err(err) => {
                proof {
                    if sound(e, g0) {
                        assert(sound_user_scope(e, e[id as int]->UserScope_0));
                        assert(sound_scope_ref(e, ss@.uses[k as int]));
                    }
                }
                return Err(err);
            },
        }
        k += 1;
    }
    Ok(())
}

/// Reads the bindings of the scope `res`, which the element `id` has become.
fn read_members(
    res: usize,
    id: usize,
    ss: &SerializedScope,
    elements: &Vec<Element>,
    state: &mut DeserializationState,
) -> (r: CrushResult<()>)
    requires
        old(state).filling(elements_view(elements), id, res),
        elements_view(elements)[id as int] == ElementView::UserScope(ss@),
        old(state).env@[res as int].mapping == Seq::<(Seq<char>, ValueView)>::empty(),
    ensures
        match r {
            Ok(_) => old(state).advances_to(elements_view(elements), final(state), res as int, set![id])
                && read_from(elements_view(elements), id, old(state).scopes@, final(state).scopes@)
                && final(state).filling(elements_view(elements), id, res)
                && (forall|j: int| 0 <= j < ss.members.len() ==> sound_member(elements_view(elements), #[trigger] ss.members[j])
                    && member_covered(elements_view(elements), final(state).scopes@, ss.members[j]))
                && final(state).env@[res as int] == (ScopeDataView {
                mapping: decode_members(
                    elements_view(elements),
                    final(state).scopes@,
                    ss.members@,
                    ss.members.len() as nat,
                ),
                ..old(state).env@[res as int]
            }),
            Err(_) => rejected(elements_view(elements), old(state).base@, r),
        },
    decreases unread(elements_view(elements), old(state).scopes@), 2int,
{
    let ghost e = elements_view(elements);
    let ghost g0 = state.base@;
    let ghost ga = state.env@;
    let ghost ma = state.scopes@;
    let mut k: usize = 0;
    proof {
        lemma_step_refl(e, g0, ga, ma, res as int, set![id]);
        assert(ga[res as int] == (ScopeDataView { mapping: decode_members(e, ma, ss.members@, 0), ..ga[res as int] }));
    }
    while k < ss.members.len()
        invariant
            k <= ss.members.len(),
            e == elements_view(elements),
            e[id as int] == ElementView::UserScope(ss@),
            g0 == old(state).base@,
            ga == old(state).env@,
            ma == old(state).scopes@,
            state.base@ == g0,
            state.filling(e, id, res),
            step(e, g0, ga, ma, state.env@, state.scopes@, res as int, set![id]),
            forall|j: int| 0 <= j < k ==> sound_member(e, #[trigger] ss.members[j]) && member_covered(e, state.scopes@, ss.members[j]),
            read_from(e, id, ma, state.scopes@),
            state.env@[res as int] == (ScopeDataView {
                mapping: decode_members(e, state.scopes@, ss.members@, k as nat),
                ..ga[res as int]
            }),
        decreases ss.members.len() - k,
    {
        let ghost gb = state.env@;
        let ghost mb = state.scopes@;
        let mid = ss.members[k];
        proof {
            if sound(e, g0) {
                assert(sound_user_scope(e, e[id as int]->UserScope_0));
                assert(sound_member(e, ss@.members[k as int]));
            }
        }
        if mid >= elements.len() as u64 {
            return error("Invalid scope member");
        }
        let (name_idx, value_idx) = match &elements[mid as usize] {
            Element::Member { name, value } => (*name, *value),
            _ => {
                return error("Invalid scope member");
            },
        };
        let name = match read_string(elements, name_idx) {
            Ok(n) => n,
            Err(err) => {
                return Err(err);
            },
        };
        let value = match deserialize_value(value_idx, elements, state) {
            Ok(v) => v,
            Err(err) => {
                return Err(err);
            },
        };
        let ghost gc = state.env@;
        let ghost mc = state.scopes@;
        proof {
            assert(ss@.members[k as int] == mid);
            if e[value_idx as int] is Value {
                assert(read_from(e, id, mb, mc));
            } else {
                assert(member_scope(e, mid) == Some(value_idx as usize));
                assert(element_edge(e, id, value_idx as usize));
                lemma_read_after_edge(e, id, value_idx as usize, mb, mc);
            }
            lemma_read_from_trans(e, id, ma, mb, mc);
            lemma_step_weaken(e, g0, gb, mb, gc, mc, res as int, set![id]);
            lemma_step_trans(e, g0, ga, ma, gb, mb, gc, mc, res as int, id);
            lemma_decode_members_stable(e, mb, mc, ss.members@, k as nat);
        }
        state.env.restore(res, name.as_str(), value);
        proof {
            lemma_step_fill(e, g0, gc, mc, state.env@, id, res);
            lemma_step_trans(e, g0, ga, ma, gc, mc, state.env@, mc, res as int, id);
            assert(member_covered(e, mc, ss.members[k as int]));
            assert forall|j: int| 0 <= j < k + 1 implies sound_member(e, #[trigger] ss.members[j])
                && member_covered(e, mc, ss.members[j]) by {
                if j < k {
                    assert(member_covered(e, mb, ss.members[j]));
                }
            }
        }
        k += 1;
    }
    Ok(())
}

/// The scope that the scope element `id` stands for. An element that has
/// been read already gives the scope it has become; a scope written in full
/// becomes a new scope of the environment, which is noted before its parent,
/// its caller, its imports and its bindings are read, so that a cycle comes
/// back to it; a scope written as a path is looked up in the environment.
pub fn deserialize_scope(
    id: usize,
    elements: &Vec<Element>,
    state: &mut DeserializationState,
) -> (r: CrushResult<usize>)
    requires
        old(state).reading(elements_view(elements)),
    ensures
        match r {
            Ok(t) => old(state).advances_to(elements_view(elements), final(state), -1, Set::empty())
                && read_from(elements_view(elements), id, old(state).scopes@, final(state).scopes@)
                && id < elements.len() && is_scope_element(elements_view(elements)[id as int])
                && final(state).scopes@.contains_key(id) && final(state).scopes@[id] == t,
            Err(err) => (!sound(elements_view(elements), old(state).base@) || !(id < elements.len()
                && is_scope_element(elements_view(elements)[id as int]))) && err.kind == ErrorKind::Generic,
        },
        old(state).scopes@.contains_key(id) ==> r == Ok::<usize, CrushError>(old(state).scopes@[id]) && old(state).undisturbed(final(state)),
        early_fault(elements_view(elements), old(state).base@, old(state).scopes@, id as int) matches Some(m)
            ==> fails_with(r, ErrorKind::Generic, m) && old(state).undisturbed(final(state)),
        old(state).scopes@ == Map::<usize, usize>::empty() ==> (r is Ok ==> read_in_full(
            elements_view(elements),
            old(state).base@,
            final(state).env@,
            final(state).scopes@,
        ) && forall|i: usize|
            #![trigger final(state).scopes@.contains_key(i)]
            #![trigger element_reaches(elements_view(elements), id, i)]
            final(state).scopes@.contains_key(i) == element_reaches(elements_view(elements), id, i)),
        !old(state).scopes@.contains_key(id) && id < elements.len() ==> (elements_view(
            elements,
        )[id as int] matches ElementView::InternalScope(p) ==> (global_value_of(old(state).base@, p) matches Some(
            ValueView::Scope(t),
        ) ==> r == Ok::<usize, CrushError>(t as usize) && final(state).env@ == old(state).env@ && final(state).scopes@ == old(state).scopes@.insert(id, t as usize))),
    decreases unread(elements_view(elements), old(state).scopes@), 0int,
{
    broadcast use vstd::std_specs::hash::group_hash_axioms;

    let ghost e = elements_view(elements);
    let ghost g0 = state.base@;
    let ghost ga = state.env@;
    let ghost ma = state.scopes@;
    if state.scopes.contains_key(&id) {
        assert(ma.contains_key(id));
        proof {
            lemma_step_refl(e, g0, ga, ma, -1, Set::empty());
        }
        let t = *state.scopes.get(&id).unwrap();
        return Ok(t);
    }
    if id >= elements.len() {
        return error("Invalid element index");
    }
    match &elements[id] {
        Element::UserScope(ss) => {
            let name = match ss.name {
                Some(Name::NameValue(n)) => match read_string(elements, n) {
                    Ok(s) => Some(s),
                    Err(err) => {
                        return Err(err);
                    },
                },
                _ => None,
            };
            let res = state.env.create(name, ss.is_loop, ss.is_stopped, ss.is_readonly);
            state.scopes.insert(id, res);
            let ghost g1 = state.env@;
            let ghost m1 = state.scopes@;
            proof {
                lemma_created(e, g0, ga, ma, g1, m1, id, res);
            }
            match read_parent(res, id, ss, elements, state) {
                Ok(_) => {},
                Err(err) => {
                    return Err(err);
                },
            }
            let ghost g2 = state.env@;
            let ghost m2 = state.scopes@;
            match read_calling(res, id, ss, elements, state) {
                Ok(_) => {},
                Err(err) => {
                    return Err(err);
                },
            }
            let ghost g3 = state.env@;
            let ghost m3 = state.scopes@;
            match read_uses(res, id, ss, elements, state) {
                Ok(_) => {},
                Err(err) => {
                    return Err(err);
                },
            }
            let ghost g4 = state.env@;
            let ghost m4 = state.scopes@;
            match read_members(res, id, ss, elements, state) {
                Ok(_) => {},
                Err(err) => {
                    return Err(err);
                },
            }
            proof {
                let g5 = state.env@;
                let m5 = state.scopes@;
                lemma_step_trans(e, g0, g1, m1, g2, m2, g3, m3, res as int, id);
                lemma_step_trans(e, g0, g1, m1, g3, m3, g4, m4, res as int, id);
                lemma_step_trans(e, g0, g1, m1, g4, m4, g5, m5, res as int, id);
                assert(sub_scopes(m2, m5));
                assert(sub_scopes(m3, m5));
                assert(sub_scopes(m4, m5));
                lemma_decode_uses_stable(m4, m5, ss@.uses, ss@.uses.len());
                assert(covers(e, m5, ss@));
                assert(g5[res as int] == decode_node(e, m5, ss@));
                assert(sound_user_scope(e, ss@));
                lemma_filled(e, g0, ga, ma, g1, m1, g5, m5, id, res);
                lemma_read_first(e, id, ma, res);
                lemma_read_from_trans(e, id, ma, m1, m2);
                lemma_read_from_trans(e, id, ma, m2, m3);
                lemma_read_from_trans(e, id, ma, m3, m4);
                lemma_read_from_trans(e, id, ma, m4, m5);
                if ma == Map::<usize, usize>::empty() {
                    lemma_fresh_read_is_exact(e, g0, ga, g5, m5, id);
                }
            }
            Ok(res)
        },
        Element::InternalScope(p) => {
            proof {
                lemma_global_value_stable(g0, ga, strings_view(p));
            }
            match state.env.global_value(p) {
                Ok(Value::Scope(t)) => {
                    state.scopes.insert(id, t);
                    proof {
                        crate::scope::lemma_descend_in_range(g0, 0, strings_view(p), 1);
                        lemma_resolved(e, g0, ga, ma, state.scopes@, id, t);
                        lemma_read_first(e, id, ma, t);
                        if ma == Map::<usize, usize>::empty() {
                            lemma_fresh_read_is_exact(e, g0, ga, ga, state.scopes@, id);
                        }
                    }
                    Ok(t)
                },
                Ok(_) => error("Value is not a scope"),
                Err(_) => error("Invalid path for scope lookup"),
            }
        },
        _ => error("Expected a scope"),
    }
}


/// Every scope element of `m` has been read in full into `g`, a graph that
/// began as `g0`.
pub open spec fn read_in_full(e: Table, g0: Graph, g: Graph, m: Scopes) -> bool {
    &&& reading(e, g0, g, m)
    &&& forall|i: usize| #[trigger] m.contains_key(i) ==> decoded(e, g0, g, m, i)
}

/// Every scope of the index that has a full path is named by it in `g0`.
pub open spec fn readable_into(g: Graph, w: Index, g0: Graph) -> bool {
    forall|s: usize| #[trigger]
        w.contains_key(s) ==> (full_path_of(g, s as int) matches Some(p) ==> names_scope(g0, p))
}

/// The table `e` is one that the graph `g` was written to, with the index
/// `w`; its root `root` is the entry of a scope of the index; and the full
/// paths of the scopes of the index that have one name scopes of `g0`.
pub open spec fn written_for(g: Graph, w: Index, e: Table, root: u64, g0: Graph) -> bool {
    &&& graph_wf(g)
    &&& written(g, e, w)
    &&& readable_into(g, w, g0)
    &&& exists|s: usize| #[trigger] w.contains_key(s) && w[s] as u64 == root
}

/// Reads the scope at the root of a serialized graph, with every scope that
/// it leads to, into the environment of `state`. A reader that has read
/// nothing before notes exactly the scope elements that it comes to from
/// the root, and every scope that it adds is what one of them has become. Succeeds for every table
/// that a graph was written to, where the full paths that were written name
/// scopes of the environment; and more generally where the table is sound
/// and its root is a scope element. A root that was read before gives the
/// scope it has become, and nothing changes. A failure that is found before
/// anything is created leaves the state as it was.
pub fn deserialize(
    message: &SerializedGraph,
    state: &mut DeserializationState,
) -> (r: CrushResult<usize>)
    requires
        old(state).reading(elements_view(&message.elements)),
    ensures
        match r {
            Ok(t) => old(state).advances_to(elements_view(&message.elements), final(state), -1, Set::empty())
                && sound_scope_ref(elements_view(&message.elements), message.root)
                && final(state).scopes@.contains_key(message.root as usize)
                && final(state).scopes@[message.root as usize] == t
                && (old(state).scopes@ == Map::<usize, usize>::empty() ==> read_in_full(
                elements_view(&message.elements),
                old(state).base@,
                final(state).env@,
                final(state).scopes@,
            ) && forall|i: usize|
                #![trigger final(state).scopes@.contains_key(i)]
                #![trigger element_reaches(elements_view(&message.elements), message.root as usize, i)]
                final(state).scopes@.contains_key(i) == element_reaches(
                    elements_view(&message.elements),
                    message.root as usize,
                    i,
                )),
            Err(err) => (!sound(elements_view(&message.elements), old(state).base@) || !sound_scope_ref(
                elements_view(&message.elements),
                message.root,
            )) && err.kind == ErrorKind::Generic,
        },
        forall|g: Graph, w: Index| #[trigger]
            written_for(g, w, elements_view(&message.elements), message.root, old(state).base@) ==> r is Ok,
        message.root <= usize::MAX && old(state).scopes@.contains_key(message.root as usize) ==> r == Ok::<
            usize,
            CrushError,
        >(old(state).scopes@[message.root as usize]) && old(state).undisturbed(final(state)),
        early_fault(
            elements_view(&message.elements),
            old(state).base@,
            old(state).scopes@,
            message.root as int,
        ) matches Some(m) ==> fails_with(r, ErrorKind::Generic, m) && old(state).undisturbed(final(state)),
{
    let ghost base = state.base@;
    let ghost before = state.scopes@;
    let r = deserialize_ref(message.root, &message.elements, state);
    proof {
        let e = elements_view(&message.elements);
        if r is Ok && before == Map::<usize, usize>::empty() {
            let m = state.scopes@;
            let root = message.root as usize;
            assert forall|i: usize|
                #![trigger m.contains_key(i)]
                #![trigger element_reaches(e, root, i)]
                m.contains_key(i) == element_reaches(e, root, i) by {
                if element_reaches(e, root, i) {
                    let n = choose|n: nat| element_leads(e, root, i, n);
                    lemma_read_is_closed(e, base, state.env@, m, root, i, n);
                }
            }
        }
        assert forall|g: Graph, w: Index| #[trigger] written_for(g, w, e, message.root, base) implies r is Ok by {
            crate::roundtrip::lemma_written_is_sound(g, e, w, base);
            let s = choose|s: usize| #[trigger] w.contains_key(s) && w[s] as u64 == message.root;
            assert(sound_scope_ref(e, w[s] as u64));
        }
    }
    r
}

} // verus!
