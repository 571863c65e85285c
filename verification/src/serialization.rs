//! Graph-preserving persistence of scopes. A scope graph is flattened into a
//! table of elements that refer to each other by index; every scope is written
//! once, whatever the number of paths that lead to it, so sharing and cycles
//! survive.

use vstd::prelude::*;
use std::collections::HashMap;
use crate::errors::{CrushResult, ErrorKind, error, fails_with};
use crate::scope::{Graph, ScopeGraph, ScopeDataView, full_path_of, node_wf};
use crate::text::{strings_view};
use crate::value::{Value, ValueView};

verus! {

/// The name of a serialized scope: absent, or the index of a string element.
#[derive(Debug, Clone, Copy, PartialEq, Eq, Structural)]
pub enum Name {
    HasName(bool),
    NameValue(u64),
}

/// The parent of a serialized scope: absent, or the index of a scope element.
#[derive(Debug, Clone, Copy, PartialEq, Eq, Structural)]
pub enum Parent {
    HasParent(bool),
    ParentValue(u64),
}

/// The caller of a serialized scope: absent, or the index of a scope element.
#[derive(Debug, Clone, Copy, PartialEq, Eq, Structural)]
pub enum Calling {
    HasCalling(bool),
    CallingValue(u64),
}

/// A scope that is written out in full.
#[derive(Debug)]
pub struct SerializedScope {
    pub name: Option<Name>,
    pub parent: Option<Parent>,
    pub calling: Option<Calling>,
    pub uses: Vec<u64>,
    pub members: Vec<u64>,
    pub is_loop: bool,
    pub is_stopped: bool,
    pub is_readonly: bool,
}

/// One entry of the element table.
#[derive(Debug)]
pub enum Element {
    /// A reserved index that nothing has been written to yet.
    Unset,
    String(String),
    UserScope(SerializedScope),
    /// A scope of the receiver's own environment, named by its full path.
    InternalScope(Vec<String>),
    /// One binding of a scope: the indices of its name and of its value.
    Member { name: u64, value: u64 },
    /// A value that is data through and through.
    Value(Value),
}

pub struct SerializedScopeView {
    pub name: Option<Name>,
    pub parent: Option<Parent>,
    pub calling: Option<Calling>,
    pub uses: Seq<u64>,
    pub members: Seq<u64>,
    pub is_loop: bool,
    pub is_stopped: bool,
    pub is_readonly: bool,
}

pub enum ElementView {
    Unset,
    String(Seq<char>),
    UserScope(SerializedScopeView),
    InternalScope(Seq<Seq<char>>),
    Member { name: u64, value: u64 },
    Value(ValueView),
}

impl View for SerializedScope {
    type V = SerializedScopeView;

    open spec fn view(&self) -> SerializedScopeView {
        SerializedScopeView {
            name: self.name,
            parent: self.parent,
            calling: self.calling,
            uses: self.uses@,
            members: self.members@,
            is_loop: self.is_loop,
            is_stopped: self.is_stopped,
            is_readonly: self.is_readonly,
        }
    }
}

impl View for Element {
    type V = ElementView;

    open spec fn view(&self) -> ElementView {
        match self {
            Element::Unset => ElementView::Unset,
            Element::String(s) => ElementView::String(s@),
            Element::UserScope(s) => ElementView::UserScope(s@),
            Element::InternalScope(p) => ElementView::InternalScope(strings_view(p)),
            Element::Member { name, value } => ElementView::Member { name: *name, value: *value },
            Element::Value(v) => ElementView::Value(v@),
        }
    }
}

/// An element table as the sequence of what its entries stand for.
pub type Table = Seq<ElementView>;

pub open spec fn elements_view(elements: &Vec<Element>) -> Table {
    Seq::new(elements.len() as nat, |i: int| elements[i]@)
}

/// The index that each scope written so far has in the table.
pub type Index = Map<usize, usize>;

/// A value that is written out as it is: one that is data through and
/// through, so that it refers to no scope and holds nothing that lives.
pub open spec fn is_plain(v: ValueView) -> bool {
    v.is_data()
}

/// A value that can be written out: data through and through, or a
/// reference to a scope.
pub open spec fn serializable(v: ValueView) -> bool {
    is_plain(v) || v is Scope
}

/// The scope `t` is one step from the scope `s`: its parent, its caller, one
/// of its imports, or a scope that one of its bindings refers to.
pub open spec fn edge(g: Graph, s: usize, t: usize) -> bool {
    ||| g[s as int].parent_scope == Some(t)
    ||| g[s as int].calling_scope == Some(t)
    ||| exists|j: int| 0 <= j < g[s as int].uses.len() && #[trigger] g[s as int].uses[j] == t
    ||| exists|j: int|
        0 <= j < g[s as int].mapping.len() && (#[trigger] g[s as int].mapping[j]).1 == ValueView::Scope(t as nat)
}

/// The scope `t` is one step from the scope `u`, which is written in full.
pub open spec fn link(g: Graph, u: usize, t: usize) -> bool {
    &&& u < g.len()
    &&& full_path_of(g, u as int) is None
    &&& edge(g, u, t)
}

/// The scope `t` is `n` steps from the scope `s`, by way of scopes that are
/// written in full: the writer does not look into a scope that it writes as
/// a path.
pub open spec fn leads(g: Graph, s: usize, t: usize, n: nat) -> bool
    decreases n,
{
    if n == 0 {
        s == t
    } else {
        exists|u: usize| #[trigger] link(g, u, t) && leads(g, s, u, (n - 1) as nat)
    }
}

/// The writer comes to the scope `t` when it writes the scope `s`.
pub open spec fn reaches(g: Graph, s: usize, t: usize) -> bool {
    exists|n: nat| leads(g, s, t, n)
}

/// The scope `t` is written in full and binds a value that cannot be
/// written.
pub open spec fn unwritable(g: Graph, t: usize) -> bool {
    &&& t < g.len()
    &&& full_path_of(g, t as int) is None
    &&& exists|j: int| 0 <= j < g[t as int].mapping.len() && !serializable((#[trigger] g[t as int].mapping[j]).1)
}

/// The scope `s` cannot be written: the writer comes from it to a scope
/// that binds a value that cannot be written.
pub open spec fn tainted(g: Graph, s: usize) -> bool {
    exists|t: usize| #[trigger] reaches(g, s, t) && unwritable(g, t)
}

/// Entry `idx` of the table is the string `s`.
pub open spec fn encodes_string(e: Table, idx: u64, s: Seq<char>) -> bool {
    idx < e.len() && e[idx as int] == ElementView::String(s)
}

/// Index `idx` stands for the value `v`: the entry of the scope that `v`
/// refers to, or an entry that holds the value `v`, which is data.
pub open spec fn encodes_value(e: Table, w: Index, idx: u64, v: ValueView) -> bool {
    match v {
        ValueView::Scope(t) => t <= usize::MAX && w.contains_key(t as usize) && w[t as usize] == idx,
        _ => is_plain(v) && idx < e.len() && e[idx as int] == ElementView::Value(v),
    }
}

/// Entry `idx` is a member element that stands for the binding `b`.
pub open spec fn encodes_member(e: Table, w: Index, idx: u64, b: (Seq<char>, ValueView)) -> bool {
    &&& idx < e.len()
    &&& e[idx as int] matches ElementView::Member { name, value }
    &&& encodes_string(e, name, b.0)
    &&& encodes_value(e, w, value, b.1)
}

/// The serialized name stands for the name `name`.
pub open spec fn name_ok(e: Table, sname: Option<Name>, name: Option<Seq<char>>) -> bool {
    match name {
        None => sname == Some(Name::HasName(false)),
        Some(s) => sname matches Some(Name::NameValue(k)) && encodes_string(e, k, s),
    }
}

/// The serialized parent stands for the edge to `parent`.
pub open spec fn parent_ok(w: Index, sparent: Option<Parent>, parent: Option<usize>) -> bool {
    match parent {
        None => sparent == Some(Parent::HasParent(false)),
        Some(p) => w.contains_key(p) && sparent == Some(Parent::ParentValue(w[p] as u64)),
    }
}

/// The serialized caller stands for the edge to `calling`.
pub open spec fn calling_ok(w: Index, scalling: Option<Calling>, calling: Option<usize>) -> bool {
    match calling {
        None => scalling == Some(Calling::HasCalling(false)),
        Some(c) => w.contains_key(c) && scalling == Some(Calling::CallingValue(w[c] as u64)),
    }
}

/// The serialized imports stand for the imports `uses`, one for one.
pub open spec fn uses_ok(w: Index, suses: Seq<u64>, uses: Seq<usize>) -> bool {
    &&& suses.len() == uses.len()
    &&& forall|i: int|
        0 <= i < uses.len() ==> w.contains_key(#[trigger] uses[i]) && suses[i] == w[uses[i]] as u64
}

/// The serialized members stand for the bindings `mapping`, one for one.
pub open spec fn members_ok(e: Table, w: Index, smembers: Seq<u64>, mapping: Seq<(Seq<char>, ValueView)>) -> bool {
    &&& smembers.len() == mapping.len()
    &&& forall|i: int| 0 <= i < mapping.len() ==> encodes_member(e, w, #[trigger] smembers[i], mapping[i])
}

/// The serialized scope `ss` stands for the node `n`: name, flags, edges and
/// bindings, the last two in order.
pub open spec fn encodes_node(e: Table, w: Index, ss: SerializedScopeView, n: ScopeDataView) -> bool {
    &&& name_ok(e, ss.name, n.name)
    &&& parent_ok(w, ss.parent, n.parent_scope)
    &&& calling_ok(w, ss.calling, n.calling_scope)
    &&& uses_ok(w, ss.uses, n.uses)
    &&& members_ok(e, w, ss.members, n.mapping)
    &&& ss.is_loop == n.is_loop
    &&& ss.is_stopped == n.is_stopped
    &&& ss.is_readonly == n.is_readonly
}

/// The entry of scope `s` stands for it: by its full path where it has one,
/// in full where it has none.
pub open spec fn encodes_scope(g: Graph, e: Table, w: Index, s: usize) -> bool {
    &&& w.contains_key(s)
    &&& s < g.len()
    &&& w[s] < e.len()
    &&& match full_path_of(g, s as int) {
        Some(p) => e[w[s] as int] == ElementView::InternalScope(p),
        None => e[w[s] as int] matches ElementView::UserScope(ss) && encodes_node(e, w, ss, g[s as int]),
    }
}

/// Entry `i` of the table is the entry of a scope of the index.
pub open spec fn indexed(w: Index, i: int) -> bool {
    exists|s: usize| #[trigger] w.contains_key(s) && w[s] == i
}

/// Every entry that is reserved or holds a scope is the entry of a scope of
/// the index.
pub open spec fn accounted(e: Table, w: Index) -> bool {
    forall|i: int|
        0 <= i < e.len() && (#[trigger] e[i] is Unset || e[i] is UserScope || e[i] is InternalScope) ==> indexed(w, i)
}

/// What holds of the table and the index while scopes are being written:
/// every scope in the index has an entry of its own, which either is still
/// reserved or stands for the scope.
pub open spec fn writing(g: Graph, e: Table, w: Index) -> bool {
    &&& w.dom().finite()
    &&& w.dom().len() <= g.len()
    &&& accounted(e, w)
    &&& forall|s: usize|
        #[trigger] w.contains_key(s) ==> s < g.len() && w[s] < e.len() && (e[w[s] as int] is Unset
            || encodes_scope(g, e, w, s))
    &&& forall|s: usize, t: usize|
        w.contains_key(s) && w.contains_key(t) && #[trigger] w[s] == #[trigger] w[t] ==> s == t
}

/// The table `e2` and the index `w2` continue `e` and `w`: nothing that was
/// written is changed, and no scope loses its index.
pub open spec fn continues(e: Table, w: Index, e2: Table, w2: Index) -> bool {
    &&& e.len() <= e2.len()
    &&& forall|i: int| 0 <= i < e.len() && !(#[trigger] e[i] is Unset) ==> e2[i] == e[i]
    &&& forall|s: usize| #[trigger] w.contains_key(s) ==> w2.contains_key(s) && w2[s] == w[s]
}

/// Every scope that `w2` has and `w` has not is written in `e2`, beyond the
/// end of the table of length `len`.
pub open spec fn new_scopes_written(len: nat, w: Index, e2: Table, w2: Index) -> bool {
    forall|s: usize|
        #[trigger] w2.contains_key(s) && !w.contains_key(s) ==> len <= w2[s] < e2.len() && !(e2[w2[s] as int] is Unset)
}

/// What was merely reserved in `e` is merely reserved in `e2`.
pub open spec fn reserved_kept(e: Table, e2: Table) -> bool {
    &&& e.len() <= e2.len()
    &&& forall|i: int| 0 <= i < e.len() && #[trigger] e[i] is Unset ==> e2[i] is Unset
}

/// One step of the writer, from the table `e` and the index `w` to `e2` and
/// `w2`.
pub open spec fn advances(g: Graph, e: Table, w: Index, e2: Table, w2: Index) -> bool {
    &&& writing(g, e2, w2)
    &&& continues(e, w, e2, w2)
    &&& new_scopes_written(e.len(), w, e2, w2)
    &&& reserved_kept(e, e2)
    &&& w.dom().len() <= w2.dom().len()
}

/// Every scope of the index is written: none is merely reserved.
pub open spec fn complete(g: Graph, e: Table, w: Index) -> bool {
    forall|s: usize| #[trigger] w.contains_key(s) ==> encodes_scope(g, e, w, s)
}

pub proof fn lemma_continues_trans(e: Table, w: Index, e2: Table, w2: Index, e3: Table, w3: Index)
    requires
        continues(e, w, e2, w2),
        continues(e2, w2, e3, w3),
    ensures
        continues(e, w, e3, w3),
{
}

pub proof fn lemma_member_stable(
    e: Table,
    w: Index,
    e2: Table,
    w2: Index,
    idx: u64,
    b: (Seq<char>, ValueView),
)
    requires
        continues(e, w, e2, w2),
        encodes_member(e, w, idx, b),
    ensures
        encodes_member(e2, w2, idx, b),
{
}

pub proof fn lemma_members_stable(
    e: Table,
    w: Index,
    e2: Table,
    w2: Index,
    smembers: Seq<u64>,
    mapping: Seq<(Seq<char>, ValueView)>,
)
    requires
        continues(e, w, e2, w2),
        members_ok(e, w, smembers, mapping),
    ensures
        members_ok(e2, w2, smembers, mapping),
{
    assert forall|i: int| 0 <= i < mapping.len() implies encodes_member(e2, w2, #[trigger] smembers[i], mapping[i]) by {
        lemma_member_stable(e, w, e2, w2, smembers[i], mapping[i]);
    }
}

pub proof fn lemma_node_stable(
    e: Table,
    w: Index,
    e2: Table,
    w2: Index,
    ss: SerializedScopeView,
    n: ScopeDataView,
)
    requires
        continues(e, w, e2, w2),
        encodes_node(e, w, ss, n),
    ensures
        encodes_node(e2, w2, ss, n),
{
    lemma_members_stable(e, w, e2, w2, ss.members, n.mapping);
}

pub proof fn lemma_scope_stable(g: Graph, e: Table, w: Index, e2: Table, w2: Index, s: usize)
    requires
        continues(e, w, e2, w2),
        encodes_scope(g, e, w, s),
    ensures
        encodes_scope(g, e2, w2, s),
{
    if full_path_of(g, s as int) is None {
        let ss = e[w[s] as int]->UserScope_0;
        lemma_node_stable(e, w, e2, w2, ss, g[s as int]);
    }
}


pub proof fn lemma_advances_trans(
    g: Graph,
    e: Table,
    w: Index,
    e2: Table,
    w2: Index,
    e3: Table,
    w3: Index,
)
    requires
        advances(g, e, w, e2, w2),
        advances(g, e2, w2, e3, w3),
    ensures
        advances(g, e, w, e3, w3),
{
    assert forall|s: usize| #[trigger] w3.contains_key(s) && !w.contains_key(s) implies e.len() <= w3[s] < e3.len()
        && !(e3[w3[s] as int] is Unset) by {
        if w2.contains_key(s) {
            assert(!(e2[w2[s] as int] is Unset));
        }
    }
}

pub proof fn lemma_advances_refl(g: Graph, e: Table, w: Index)
    requires
        writing(g, e, w),
    ensures
        advances(g, e, w, e, w),
{
}

/// A finite set of numbers below `n` has at most `n` elements.
pub proof fn lemma_bounded_len(s: Set<usize>, n: nat)
    requires
        s.finite(),
        forall|k: usize| s.contains(k) ==> k < n,
    ensures
        s.len() <= n,
    decreases n,
{
    if n == 0 {
        assert(s =~= Set::empty());
    } else {
        if n - 1 <= usize::MAX {
            let last = (n - 1) as usize;
            lemma_bounded_len(s.remove(last), (n - 1) as nat);
        } else {
            lemma_bounded_len(s, (n - 1) as nat);
        }
    }
}

/// What the writer remembers: the index of every scope written so far.
pub struct SerializationState {
    pub with_id: HashMap<usize, usize>,
}

impl SerializationState {
    pub fn new() -> (state: SerializationState)
        ensures
            state.with_id@ == Map::<usize, usize>::empty(),
    {
        SerializationState { with_id: HashMap::new() }
    }
}

/// The message of the failure to write a value that cannot be written.
pub open spec fn cannot_serialize() -> Seq<char> {
    "Cannot serialize value"@
}

/// What the writer owes when it fails to write the scope `s`: the scope
/// cannot be written.
pub open spec fn refused<T>(g: Graph, s: usize, r: CrushResult<T>) -> bool {
    tainted(g, s) && fails_with(r, ErrorKind::Generic, cannot_serialize())
}

/// What the writer owes when it fails to write a value: the value cannot
/// be written, or the scope that it refers to cannot.
pub open spec fn value_refused<T>(g: Graph, v: ValueView, r: CrushResult<T>) -> bool {
    &&& fails_with(r, ErrorKind::Generic, cannot_serialize())
    &&& !serializable(v) || (v matches ValueView::Scope(u) && u <= usize::MAX && tainted(g, u as usize))
}

/// A scope that binds a value that cannot be written cannot be written.
pub proof fn lemma_unwritable_is_tainted(g: Graph, s: usize)
    requires
        unwritable(g, s),
    ensures
        tainted(g, s),
{
    assert(leads(g, s, s, 0));
    assert(reaches(g, s, s));
}

/// A step in front of a way makes a way that is one step longer.
pub proof fn lemma_leads_after_edge(g: Graph, s: usize, u: usize, t: usize, n: nat)
    requires
        s < g.len(),
        full_path_of(g, s as int) is None,
        edge(g, s, u),
        leads(g, u, t, n),
    ensures
        leads(g, s, t, n + 1),
    decreases n,
{
    if n == 0 {
        assert(leads(g, s, s, 0));
        assert(link(g, s, t));
    } else {
        let v = choose|v: usize| #[trigger] link(g, v, t) && leads(g, u, v, (n - 1) as nat);
        lemma_leads_after_edge(g, s, u, v, (n - 1) as nat);
        assert(link(g, v, t) && leads(g, s, v, n));
    }
}

/// A scope that is written in full and is one step before a scope that
/// cannot be written cannot be written.
pub proof fn lemma_taint_spreads(g: Graph, s: usize, u: usize)
    requires
        s < g.len(),
        full_path_of(g, s as int) is None,
        edge(g, s, u),
        tainted(g, u),
    ensures
        tainted(g, s),
{
    let t = choose|t: usize| #[trigger] reaches(g, u, t) && unwritable(g, t);
    let n = choose|n: nat| leads(g, u, t, n);
    lemma_leads_after_edge(g, s, u, t, n);
    assert(reaches(g, s, t));
}

/// Appends a string element and returns its index.
fn push_string(elements: &mut Vec<Element>, s: &str) -> (idx: usize)
    ensures
        idx == old(elements).len(),
        elements_view(final(elements)) == elements_view(old(elements)).push(ElementView::String(s@)),
{
    let idx = elements.len();
    elements.push(Element::String(s.to_string()));
    assert(elements_view(elements) =~= elements_view(old(elements)).push(ElementView::String(s@)));
    idx
}

/// The entries stay accounted for when the index keeps its scopes, the old
/// entries keep their kind and every new entry of a scope is indexed.
proof fn lemma_accounted(e: Table, w: Index, e2: Table, w2: Index)
    requires
        accounted(e, w),
        forall|s: usize| #[trigger] w.contains_key(s) ==> w2.contains_key(s) && w2[s] == w[s],
        forall|i: int|
            0 <= i < e2.len() && (#[trigger] e2[i] is Unset || e2[i] is UserScope || e2[i] is InternalScope) ==> indexed(
                w2,
                i,
            ) || (i < e.len() && (e[i] is Unset || e[i] is UserScope || e[i] is InternalScope)),
    ensures
        accounted(e2, w2),
{
    assert forall|i: int|
        0 <= i < e2.len() && (#[trigger] e2[i] is Unset || e2[i] is UserScope || e2[i] is InternalScope) implies indexed(
        w2,
        i,
    ) by {
        if !indexed(w2, i) {
            assert(indexed(w, i));
            let s = choose|s: usize| #[trigger] w.contains_key(s) && w[s] == i;
            assert(w2.contains_key(s) && w2[s] == i);
        }
    }
}

/// Pushing an element that is neither a reservation nor a scope is a step
/// of the writer.
proof fn lemma_push_advances(g: Graph, e: Table, w: Index, x: ElementView)
    requires
        writing(g, e, w),
        x is String || x is Member || x is Value,
    ensures
        advances(g, e, w, e.push(x), w),
{
    let e2 = e.push(x);
    lemma_accounted(e, w, e2, w);
    assert(continues(e, w, e2, w));
    assert forall|s: usize| #[trigger] w.contains_key(s) implies s < g.len() && w[s] < e2.len() && (e2[w[s] as int] is Unset
        || encodes_scope(g, e2, w, s)) by {
        if !(e[w[s] as int] is Unset) {
            lemma_scope_stable(g, e, w, e2, w, s);
        }
    }
}


/// Writing the path of a scope that has one into its reserved entry
/// completes the step that reserved it.
proof fn lemma_finish(
    g: Graph,
    e0: Table,
    w0: Index,
    e1: Table,
    w1: Index,
    e2: Table,
    scope: usize,
    idx: usize,
)
    requires
        writing(g, e0, w0),
        writing(g, e1, w1),
        !w0.contains_key(scope),
        scope < g.len(),
        idx == e0.len(),
        e1 == e0.push(ElementView::Unset),
        w1 == w0.insert(scope, idx),
        full_path_of(g, scope as int) is Some,
        e2 == e1.update(idx as int, ElementView::InternalScope(full_path_of(g, scope as int)->0)),
    ensures
        advances(g, e0, w0, e2, w1),
{
    assert(indexed(w1, idx as int)) by {
        assert(w1.contains_key(scope) && w1[scope] == idx);
    }
    lemma_accounted(e1, w1, e2, w1);
    assert(continues(e1, w1, e2, w1));
    assert(continues(e0, w0, e2, w1));
    assert forall|s: usize| #[trigger] w1.contains_key(s) implies s < g.len() && w1[s] < e2.len() && (e2[w1[s] as int] is Unset
        || encodes_scope(g, e2, w1, s)) by {
        if s != scope {
            assert(w1[s] != w1[scope]);
            if !(e1[w1[s] as int] is Unset) {
                lemma_scope_stable(g, e1, w1, e2, w1, s);
            }
        }
    }
    assert(w0.dom().len() <= w1.dom().len()) by {
        assert(w1.dom() =~= w0.dom().insert(scope));
    }
}

/// Writing a scope in full into its reserved entry completes the steps that
/// led from the reservation to the last of its parts.
proof fn lemma_finish_user(
    g: Graph,
    e0: Table,
    w0: Index,
    e1: Table,
    w1: Index,
    e6: Table,
    w6: Index,
    e7: Table,
    scope: usize,
    idx: usize,
    ss: SerializedScopeView,
)
    requires
        writing(g, e0, w0),
        !w0.contains_key(scope),
        scope < g.len(),
        idx == e0.len(),
        e1 == e0.push(ElementView::Unset),
        w1 == w0.insert(scope, idx),
        advances(g, e1, w1, e6, w6),
        full_path_of(g, scope as int) is None,
        encodes_node(e6, w6, ss, g[scope as int]),
        e7 == e6.update(idx as int, ElementView::UserScope(ss)),
    ensures
        advances(g, e0, w0, e7, w6),
{
    assert(e1[idx as int] is Unset);
    assert(e6[idx as int] is Unset);
    assert(w1.contains_key(scope));
    assert(w6.contains_key(scope) && w6[scope] == idx);
    assert(indexed(w6, idx as int));
    lemma_accounted(e6, w6, e7, w6);
    assert(continues(e6, w6, e7, w6));
    assert(continues(e0, w0, e1, w1));
    lemma_continues_trans(e0, w0, e1, w1, e6, w6);
    lemma_continues_trans(e0, w0, e6, w6, e7, w6);
    lemma_node_stable(e6, w6, e7, w6, ss, g[scope as int]);
    assert forall|s: usize| #[trigger] w6.contains_key(s) implies s < g.len() && w6[s] < e7.len() && (e7[w6[s] as int] is Unset
        || encodes_scope(g, e7, w6, s)) by {
        if s != scope {
            assert(w6[s] != w6[scope]);
            if !(e6[w6[s] as int] is Unset) {
                lemma_scope_stable(g, e6, w6, e7, w6, s);
            }
        }
    }
    assert forall|s: usize| #[trigger] w6.contains_key(s) && !w0.contains_key(s) implies e0.len() <= w6[s] < e7.len() && !(
    e7[w6[s] as int] is Unset) by {
        if s != scope {
            if w1.contains_key(s) {
                assert(w0.contains_key(s));
            }
        }
    }
    assert(w0.dom().len() <= w6.dom().len()) by {
        assert(w1.dom() =~= w0.dom().insert(scope));
    }
    assert forall|i: int| 0 <= i < e0.len() && #[trigger] e0[i] is Unset implies e7[i] is Unset by {
        assert(e1[i] is Unset);
        assert(e6[i] is Unset);
    }
}

/// Every scope that `w2` has and `w` has not is one that the writer comes
/// to from the scope `from`.
pub open spec fn reached_from(g: Graph, from: usize, w: Index, w2: Index) -> bool {
    forall|s: usize| #[trigger] w2.contains_key(s) && !w.contains_key(s) ==> reaches(g, from, s)
}

/// Every scope that `w2` has and `w` has not is one that the writer comes
/// to from one of the scopes `targets`.
pub open spec fn reached_from_any(g: Graph, targets: Seq<usize>, w: Index, w2: Index) -> bool {
    forall|s: usize| #[trigger]
        w2.contains_key(s) && !w.contains_key(s) ==> exists|i: int|
            0 <= i < targets.len() && reaches(g, #[trigger] targets[i], s)
}

/// Every scope that `w2` has and `w` has not is one that the writer comes
/// to from a scope that one of the bindings refers to.
pub open spec fn reached_from_bindings(g: Graph, bindings: Seq<(Seq<char>, ValueView)>, w: Index, w2: Index) -> bool {
    forall|s: usize| #[trigger]
        w2.contains_key(s) && !w.contains_key(s) ==> exists|i: int|
            0 <= i < bindings.len() && ((#[trigger] bindings[i]).1 matches ValueView::Scope(u) && u <= usize::MAX
                && reaches(g, u as usize, s))
}

/// Entry `i` is the member element at `midx`, or the name or the value that
/// this member element refers to.
pub open spec fn part_of_member(e: Table, midx: u64, i: int) -> bool {
    midx == i || (midx < e.len() && (e[midx as int] matches ElementView::Member { name, value } && (name == i
        || value == i)))
}

/// Entry `i` is part of one of the members `smembers`.
pub open spec fn part_of_members(e: Table, smembers: Seq<u64>, i: int) -> bool {
    exists|j: int| 0 <= j < smembers.len() && part_of_member(e, #[trigger] smembers[j], i)
}

/// Entry `i` is the name of the serialized scope, or part of one of its
/// members.
pub open spec fn part_of_scope(e: Table, ss: SerializedScopeView, i: int) -> bool {
    (ss.name matches Some(Name::NameValue(k)) && k == i) || part_of_members(e, ss.members, i)
}

/// Entry `i` has its place in the table: it is the entry of a scope of the
/// index, or a scope that is written in full refers to it as its name or as
/// part of one of its members.
pub open spec fn owned(e: Table, w: Index, i: int) -> bool {
    indexed(w, i) || exists|s: usize| #[trigger]
        w.contains_key(s) && w[s] < e.len() && e[w[s] as int] is UserScope && part_of_scope(
            e,
            e[w[s] as int]->UserScope_0,
            i,
        )
}

/// Every entry of the table from `from` on has its place.
pub open spec fn owned_from(e: Table, w: Index, from: nat) -> bool {
    forall|i: int| from <= i < e.len() ==> #[trigger] owned(e, w, i)
}

/// Every entry of the table from `from` on has its place or is part of one
/// of the members `smembers`, which no scope refers to yet.
pub open spec fn owned_or_member_from(e: Table, w: Index, smembers: Seq<u64>, from: nat) -> bool {
    forall|i: int| from <= i < e.len() ==> #[trigger] owned(e, w, i) || part_of_members(e, smembers, i)
}

pub proof fn lemma_part_of_members_stable(e: Table, w: Index, e2: Table, w2: Index, smembers: Seq<u64>, i: int)
    requires
        continues(e, w, e2, w2),
        part_of_members(e, smembers, i),
    ensures
        part_of_members(e2, smembers, i),
{
    let j = choose|j: int| 0 <= j < smembers.len() && part_of_member(e, #[trigger] smembers[j], i);
    assert(part_of_member(e2, smembers[j], i));
}

/// An entry that has its place keeps it.
pub proof fn lemma_owned_stable(e: Table, w: Index, e2: Table, w2: Index, i: int)
    requires
        continues(e, w, e2, w2),
        owned(e, w, i),
    ensures
        owned(e2, w2, i),
{
    if indexed(w, i) {
        let s = choose|s: usize| #[trigger] w.contains_key(s) && w[s] == i;
        assert(w2.contains_key(s) && w2[s] == i);
    } else {
        let s = choose|s: usize| #[trigger]
            w.contains_key(s) && w[s] < e.len() && e[w[s] as int] is UserScope && part_of_scope(
                e,
                e[w[s] as int]->UserScope_0,
                i,
            );
        let ss = e[w[s] as int]->UserScope_0;
        assert(w2.contains_key(s) && w2[s] == w[s]);
        assert(e2[w[s] as int] == e[w[s] as int]);
        if part_of_members(e, ss.members, i) {
            lemma_part_of_members_stable(e, w, e2, w2, ss.members, i);
        }
        assert(part_of_scope(e2, ss, i));
    }
}

/// Where the entries from `from` on had their place before a step and the
/// entries that the step appended have theirs after it, all of them have.
pub proof fn lemma_owned_from_grows(e: Table, w: Index, e2: Table, w2: Index, from: nat)
    requires
        continues(e, w, e2, w2),
        owned_from(e, w, from),
        owned_from(e2, w2, e.len()),
    ensures
        owned_from(e2, w2, from),
{
    assert forall|i: int| from <= i < e2.len() implies #[trigger] owned(e2, w2, i) by {
        if i < e.len() {
            assert(owned(e, w, i));
            lemma_owned_stable(e, w, e2, w2, i);
        }
    }
}

/// A step in front of a way to a scope makes a way to it.
pub proof fn lemma_reaches_after_edge(g: Graph, s: usize, u: usize, t: usize)
    requires
        s < g.len(),
        full_path_of(g, s as int) is None,
        edge(g, s, u),
        reaches(g, u, t),
    ensures
        reaches(g, s, t),
{
    let n = choose|n: nat| leads(g, u, t, n);
    lemma_leads_after_edge(g, s, u, t, n);
}

/// The scopes that are added while a scope is written in full are scopes
/// that the writer comes to from it.
proof fn lemma_scope_reached(g: Graph, scope: usize, w0: Index, w1: Index, w3: Index, w4: Index, w5: Index, w6: Index)
    requires
        scope < g.len(),
        full_path_of(g, scope as int) is None,
        forall|s: usize| #[trigger] w1.contains_key(s) ==> s == scope || w0.contains_key(s),
        match g[scope as int].parent_scope {
            Some(p) => reached_from(g, p, w1, w3),
            None => w3 == w1,
        },
        match g[scope as int].calling_scope {
            Some(c) => reached_from(g, c, w3, w4),
            None => w4 == w3,
        },
        reached_from_any(g, g[scope as int].uses, w4, w5),
        reached_from_bindings(g, g[scope as int].mapping, w5, w6),
    ensures
        reached_from(g, scope, w0, w6),
{
    let n = g[scope as int];
    assert forall|s: usize| #[trigger] w6.contains_key(s) && !w0.contains_key(s) implies reaches(g, scope, s) by {
        if s == scope {
            assert(leads(g, scope, scope, 0));
        } else {
            assert(!w1.contains_key(s));
            if w3.contains_key(s) {
                lemma_reaches_after_edge(g, scope, n.parent_scope->0, s);
            } else if w4.contains_key(s) {
                lemma_reaches_after_edge(g, scope, n.calling_scope->0, s);
            } else if w5.contains_key(s) {
                let i = choose|i: int| 0 <= i < n.uses.len() && reaches(g, #[trigger] n.uses[i], s);
                lemma_reaches_after_edge(g, scope, n.uses[i], s);
            } else {
                let i = choose|i: int|
                    0 <= i < n.mapping.len() && ((#[trigger] n.mapping[i]).1 matches ValueView::Scope(u) && u
                        <= usize::MAX && reaches(g, u as usize, s));
                lemma_reaches_after_edge(g, scope, n.mapping[i].1->Scope_0 as usize, s);
            }
        }
    }
}

/// When a scope has been written in full, every entry that was appended for
/// it has its place.
proof fn lemma_scope_owned(
    from: nat,
    e2: Table,
    e3: Table,
    w3: Index,
    e4: Table,
    w4: Index,
    e5: Table,
    w5: Index,
    e6: Table,
    w6: Index,
    e7: Table,
    scope: usize,
    idx: usize,
    ss: SerializedScopeView,
)
    requires
        idx == from,
        e7.len() <= usize::MAX,
        e2.len() == idx + 1 || (e2.len() == idx + 2 && ss.name == Some(Name::NameValue((idx + 1) as u64))),
        e2.len() <= e3.len() <= e4.len() <= e5.len() <= e6.len() == e7.len(),
        continues(e3, w3, e7, w6),
        continues(e4, w4, e7, w6),
        continues(e5, w5, e7, w6),
        continues(e6, w6, e7, w6),
        owned_from(e3, w3, e2.len()),
        owned_from(e4, w4, e3.len()),
        owned_from(e5, w5, e4.len()),
        owned_or_member_from(e6, w6, ss.members, e5.len()),
        w6.contains_key(scope),
        w6[scope] == idx,
        idx < e7.len(),
        e7[idx as int] == ElementView::UserScope(ss),
    ensures
        owned_from(e7, w6, from),
{
    assert forall|i: int| from <= i < e7.len() implies #[trigger] owned(e7, w6, i) by {
        if i == idx {
            assert(indexed(w6, i));
        } else if i < e2.len() {
            assert(part_of_scope(e7, ss, i));
        } else if i < e3.len() {
            assert(owned(e3, w3, i));
            lemma_owned_stable(e3, w3, e7, w6, i);
        } else if i < e4.len() {
            assert(owned(e4, w4, i));
            lemma_owned_stable(e4, w4, e7, w6, i);
        } else if i < e5.len() {
            assert(owned(e5, w5, i));
            lemma_owned_stable(e5, w5, e7, w6, i);
        } else {
            if owned(e6, w6, i) {
                lemma_owned_stable(e6, w6, e7, w6, i);
            } else {
                lemma_part_of_members_stable(e6, w6, e7, w6, ss.members, i);
                assert(part_of_scope(e7, ss, i));
            }
        }
    }
}

/// The number of scopes of the graph that the index does not hold yet.
pub open spec fn unwritten(g: Graph, w: Index) -> int {
    g.len() - w.dom().len()
}

/// Reserves the next index of the table for `scope`.
fn reserve(
    graph: &ScopeGraph,
    scope: usize,
    elements: &mut Vec<Element>,
    state: &mut SerializationState,
) -> (idx: usize)
    requires
        writing(graph@, elements_view(old(elements)), old(state).with_id@),
        scope < graph@.len(),
        !old(state).with_id@.contains_key(scope),
    ensures
        idx == old(elements).len(),
        elements_view(final(elements)) == elements_view(old(elements)).push(ElementView::Unset),
        final(state).with_id@ == old(state).with_id@.insert(scope, idx),
        writing(graph@, elements_view(final(elements)), final(state).with_id@),
        continues(
            elements_view(old(elements)),
            old(state).with_id@,
            elements_view(final(elements)),
            final(state).with_id@,
        ),
        reserved_kept(elements_view(old(elements)), elements_view(final(elements))),
        unwritten(graph@, final(state).with_id@) < unwritten(graph@, old(state).with_id@),
{
    broadcast use vstd::std_specs::hash::group_hash_axioms;

    let ghost g = graph@;
    let ghost e = elements_view(elements);
    let ghost w = state.with_id@;
    let idx = elements.len();
    elements.push(Element::Unset);
    state.with_id.insert(scope, idx);
    proof {
        let e2 = elements_view(elements);
        let w2 = state.with_id@;
        assert(e2 =~= e.push(ElementView::Unset));
        assert(w2 == w.insert(scope, idx));
        assert(indexed(w2, idx as int)) by {
            assert(w2.contains_key(scope) && w2[scope] == idx);
        }
        lemma_accounted(e, w, e2, w2);
        assert(continues(e, w, e2, w2));
        assert forall|s: usize| #[trigger] w2.contains_key(s) implies s < g.len() && w2[s] < e2.len() && (e2[w2[s] as int] is Unset
            || encodes_scope(g, e2, w2, s)) by {
            if s != scope {
                assert(w.contains_key(s));
                if !(e[w[s] as int] is Unset) {
                    lemma_scope_stable(g, e, w, e2, w2, s);
                }
            }
        }
        assert forall|s: usize, t: usize|
            w2.contains_key(s) && w2.contains_key(t) && #[trigger] w2[s] == #[trigger] w2[t] implies s == t by {
            if s != scope {
                assert(w.contains_key(s));
            }
            if t != scope {
                assert(w.contains_key(t));
            }
        }
        assert forall|k: usize| w2.dom().contains(k) implies k < g.len() by {
            assert(w2.contains_key(k));
        }
        lemma_bounded_len(w2.dom(), g.len());
    }
    idx
}

/// Writes a value: a scope by its entry, data as an element of its own.
pub fn serialize_value(
    graph: &ScopeGraph,
    value: &Value,
    elements: &mut Vec<Element>,
    state: &mut SerializationState,
) -> (r: CrushResult<usize>)
    requires
        graph.wf(),
        writing(graph@, elements_view(old(elements)), old(state).with_id@),
        crate::scope::storable(value@, graph@.len()),
    ensures
        match r {
            Ok(idx) => advances(
                graph@,
                elements_view(old(elements)),
                old(state).with_id@,
                elements_view(final(elements)),
                final(state).with_id@,
            ) && encodes_value(elements_view(final(elements)), final(state).with_id@, idx as u64, value@) && (
            match value@ {
                ValueView::Scope(u) => reached_from(graph@, u as usize, old(state).with_id@, final(state).with_id@)
                    && owned_from(
                    elements_view(final(elements)),
                    final(state).with_id@,
                    old(elements).len() as nat,
                ),
                v => final(state).with_id@ == old(state).with_id@ && idx == old(elements).len() && elements_view(
                    final(elements),
                ) == elements_view(old(elements)).push(ElementView::Value(v)),
            }),
            Err(_) => value_refused(graph@, value@, r),
        },
    decreases unwritten(graph@, old(state).with_id@), 1int,
{
    let ghost e = elements_view(elements);
    let ghost w = state.with_id@;
    match value {
        Value::Scope(t) => serialize_scope(graph, *t, elements, state),
        _ => {
            if !value.is_data() {
                return error("Cannot serialize value");
            }
            let idx = elements.len();
            elements.push(Element::Value(value.duplicate()));
            proof {
                assert(elements_view(elements) =~= e.push(ElementView::Value(value@)));
                lemma_push_advances(graph@, e, w, ElementView::Value(value@));
            }
            Ok(idx)
        },
    }
}

/// Writes the target of an optional edge.
fn serialize_link(
    graph: &ScopeGraph,
    target: Option<usize>,
    elements: &mut Vec<Element>,
    state: &mut SerializationState,
) -> (r: CrushResult<Option<usize>>)
    requires
        graph.wf(),
        writing(graph@, elements_view(old(elements)), old(state).with_id@),
        target matches Some(t) ==> t < graph@.len(),
    ensures
        match r {
            Ok(link) => advances(
                graph@,
                elements_view(old(elements)),
                old(state).with_id@,
                elements_view(final(elements)),
                final(state).with_id@,
            ) && match target {
                None => link is None && final(state).with_id@ == old(state).with_id@ && elements_view(
                    final(elements),
                ) == elements_view(old(elements)),
                Some(t) => link matches Some(i) && final(state).with_id@.contains_key(t) && final(state).with_id@[t] == i
                    && reached_from(graph@, t, old(state).with_id@, final(state).with_id@),
            } && owned_from(elements_view(final(elements)), final(state).with_id@, old(elements).len() as nat),
            Err(_) => target matches Some(t) && refused(graph@, t, r),
        },
    decreases unwritten(graph@, old(state).with_id@), 2int,
{
    match target {
        None => {
            proof {
                lemma_advances_refl(graph@, elements_view(elements), state.with_id@);
            }
            Ok(None)
        },
        Some(t) => match serialize_scope(graph, t, elements, state) {
            Ok(i) => Ok(Some(i)),
            Err(e) => Err(e),
        },
    }
}

/// Writes the imports of a scope, in order.
fn serialize_uses(
    graph: &ScopeGraph,
    uses: &Vec<usize>,
    elements: &mut Vec<Element>,
    state: &mut SerializationState,
) -> (r: CrushResult<Vec<u64>>)
    requires
        graph.wf(),
        writing(graph@, elements_view(old(elements)), old(state).with_id@),
        forall|i: int| 0 <= i < uses.len() ==> #[trigger] uses[i] < graph@.len(),
    ensures
        match r {
            Ok(out) => advances(
                graph@,
                elements_view(old(elements)),
                old(state).with_id@,
                elements_view(final(elements)),
                final(state).with_id@,
            ) && uses_ok(final(state).with_id@, out@, uses@) && reached_from_any(
                graph@,
                uses@,
                old(state).with_id@,
                final(state).with_id@,
            ) && owned_from(elements_view(final(elements)), final(state).with_id@, old(elements).len() as nat),
            Err(_) => exists|i: int| 0 <= i < uses.len() && refused(graph@, #[trigger] uses[i], r),
        },
    decreases unwritten(graph@, old(state).with_id@), 2int,
{
    let ghost g = graph@;
    let ghost e0 = elements_view(elements);
    let ghost w0 = state.with_id@;
    let mut out: Vec<u64> = Vec::new();
    let mut k: usize = 0;
    proof {
        lemma_advances_refl(g, e0, w0);
    }
    while k < uses.len()
        invariant
            graph.wf(),
            g == graph@,
            w0 == old(state).with_id@,
            k <= uses.len(),
            forall|i: int| 0 <= i < uses.len() ==> #[trigger] uses[i] < graph@.len(),
            advances(g, e0, w0, elements_view(elements), state.with_id@),
            uses_ok(state.with_id@, out@, uses@.take(k as int)),
            reached_from_any(g, uses@, w0, state.with_id@),
            owned_from(elements_view(elements), state.with_id@, e0.len()),
        decreases uses.len() - k,
    {
        let ghost e1 = elements_view(elements);
        let ghost w1 = state.with_id@;
        match serialize_scope(graph, uses[k], elements, state) {
            Ok(i) => {
                out.push(i as u64);
                proof {
                    let e2 = elements_view(elements);
                    let w2 = state.with_id@;
                    lemma_advances_trans(g, e0, w0, e1, w1, e2, w2);
                    assert(uses@.take(k as int + 1) =~= uses@.take(k as int).push(uses@[k as int]));
                    lemma_owned_from_grows(e1, w1, e2, w2, e0.len());
                    assert forall|s: usize| #[trigger] w2.contains_key(s) && !w0.contains_key(s) implies exists|i: int|
                        0 <= i < uses@.len() && reaches(g, #[trigger] uses@[i], s) by {
                        if !w1.contains_key(s) {
                            assert(reaches(g, uses@[k as int], s));
                        }
                    }
                }
            },
            Err(e) => {
                assert(refused(g, uses[k as int], Err::<Vec<u64>, _>(e)));
                return Err(e);
            },
        }
        k += 1;
    }
    assert(uses@.take(k as int) =~= uses@);
    Ok(out)
}

/// Writes the bindings of a scope, in order: for each, its name, its value
/// and a member element that joins the two.
fn serialize_members(
    graph: &ScopeGraph,
    mapping: &Vec<(String, Value)>,
    elements: &mut Vec<Element>,
    state: &mut SerializationState,
) -> (r: CrushResult<Vec<u64>>)
    requires
        graph.wf(),
        writing(graph@, elements_view(old(elements)), old(state).with_id@),
        forall|i: int|
            0 <= i < mapping.len() ==> crate::scope::storable(
                (#[trigger] crate::value::fields_view(mapping)[i]).1,
                graph@.len(),
            ),
    ensures
        match r {
            Ok(out) => advances(
                graph@,
                elements_view(old(elements)),
                old(state).with_id@,
                elements_view(final(elements)),
                final(state).with_id@,
            ) && members_ok(
                elements_view(final(elements)),
                final(state).with_id@,
                out@,
                crate::value::fields_view(mapping),
            ) && reached_from_bindings(
                graph@,
                crate::value::fields_view(mapping),
                old(state).with_id@,
                final(state).with_id@,
            ) && owned_or_member_from(
                elements_view(final(elements)),
                final(state).with_id@,
                out@,
                old(elements).len() as nat,
            ),
            Err(_) => exists|i: int|
                0 <= i < mapping.len() && value_refused(
                    graph@,
                    (#[trigger] crate::value::fields_view(mapping)[i]).1,
                    r,
                ),
        },
    decreases unwritten(graph@, old(state).with_id@), 2int,
{
    let ghost g = graph@;
    let ghost e0 = elements_view(elements);
    let ghost w0 = state.with_id@;
    let ghost bindings = crate::value::fields_view(mapping);
    let mut out: Vec<u64> = Vec::new();
    let mut k: usize = 0;
    proof {
        lemma_advances_refl(g, e0, w0);
    }
    while k < mapping.len()
        invariant
            graph.wf(),
            g == graph@,
            w0 == old(state).with_id@,
            bindings == crate::value::fields_view(mapping),
            k <= mapping.len(),
            forall|i: int| 0 <= i < mapping.len() ==> crate::scope::storable((#[trigger] bindings[i]).1, graph@.len()),
            advances(g, e0, w0, elements_view(elements), state.with_id@),
            members_ok(elements_view(elements), state.with_id@, out@, bindings.take(k as int)),
            reached_from_bindings(g, bindings, w0, state.with_id@),
            owned_or_member_from(elements_view(elements), state.with_id@, out@, e0.len()),
        decreases mapping.len() - k,
    {
        let ghost e1 = elements_view(elements);
        let ghost w1 = state.with_id@;
        let ghost b = bindings[k as int];
        let ghost out1 = out@;
        assert(b.0 == mapping[k as int].0@ && b.1 == mapping[k as int].1@);
        let name_idx = push_string(elements, mapping[k].0.as_str());
        let ghost e2 = elements_view(elements);
        proof {
            lemma_push_advances(g, e1, w1, ElementView::String(b.0));
            assert(crate::scope::storable(bindings[k as int].1, graph@.len()));
        }
        match serialize_value(graph, &mapping[k].1, elements, state) {
            Ok(value_idx) => {
                let ghost e3 = elements_view(elements);
                let ghost w3 = state.with_id@;
                let entry_idx = elements.len();
                elements.push(Element::Member { name: name_idx as u64, value: value_idx as u64 });
                out.push(entry_idx as u64);
                proof {
                    let e4 = elements_view(elements);
                    let member = ElementView::Member { name: name_idx as u64, value: value_idx as u64 };
                    assert(e4 =~= e3.push(member));
                    lemma_push_advances(g, e3, w3, member);
                    lemma_advances_trans(g, e1, w1, e2, w1, e3, w3);
                    lemma_advances_trans(g, e1, w1, e3, w3, e4, w3);
                    lemma_advances_trans(g, e0, w0, e1, w1, e4, w3);
                    assert(e2[name_idx as int] == ElementView::String(b.0));
                    assert(e3[name_idx as int] == e2[name_idx as int]);
                    assert(e4[name_idx as int] == e3[name_idx as int]);
                    assert(encodes_string(e4, name_idx as u64, b.0));
                    assert(encodes_value(e4, w3, value_idx as u64, b.1));
                    assert(encodes_member(e4, w3, entry_idx as u64, b));
                    lemma_members_stable(e1, w1, e4, w3, out1, bindings.take(k as int));
                    assert(out@ =~= out1.push(entry_idx as u64));
                    assert(bindings.take(k as int + 1) =~= bindings.take(k as int).push(b));
                    assert forall|s: usize| #[trigger] w3.contains_key(s) && !w0.contains_key(s) implies exists|i: int|
                        0 <= i < bindings.len() && ((#[trigger] bindings[i]).1 matches ValueView::Scope(u) && u
                            <= usize::MAX && reaches(g, u as usize, s)) by {
                        if !w1.contains_key(s) {
                            assert(b.1 is Scope);
                            assert(reaches(g, b.1->Scope_0 as usize, s));
                            assert(bindings[k as int] == b);
                        }
                    }
                    assert(part_of_member(e4, entry_idx as u64, name_idx as int));
                    assert(part_of_member(e4, entry_idx as u64, value_idx as int));
                    assert(part_of_member(e4, entry_idx as u64, entry_idx as int));
                    assert(out@[k as int] == entry_idx as u64);
                    assert forall|i: int| e0.len() <= i < e4.len() implies #[trigger] owned(e4, w3, i) || part_of_members(
                        e4,
                        out@,
                        i,
                    ) by {
                        if i < e1.len() {
                            if owned(e1, w1, i) {
                                lemma_owned_stable(e1, w1, e4, w3, i);
                            } else {
                                lemma_part_of_members_stable(e1, w1, e4, w3, out1, i);
                                let j = choose|j: int| 0 <= j < out1.len() && part_of_member(e4, #[trigger] out1[j], i);
                                assert(out@[j] == out1[j]);
                            }
                        } else if i == name_idx {
                        } else if i < e3.len() {
                            if b.1 is Scope {
                                assert(owned(e3, w3, i));
                                lemma_owned_stable(e3, w3, e4, w3, i);
                            } else {
                                assert(i == value_idx);
                            }
                        } else {
                            assert(i == entry_idx);
                        }
                    }
                }
            },
            Err(e) => {
                assert(value_refused(g, bindings[k as int].1, Err::<Vec<u64>, _>(e)));
                return Err(e);
            },
        }
        k += 1;
    }
    assert(bindings.take(k as int) =~= bindings);
    Ok(out)
}

/// The table `e` holds, at the indices of `w`, every scope of `g` that `w`
/// has, each written in full or by its path.
pub open spec fn written(g: Graph, e: Table, w: Index) -> bool {
    writing(g, e, w) && complete(g, e, w)
}

/// The table `e` with the root index `root` is the serialization of the
/// scope `s` of `g` that has the index `w`: the entry of `s` is the first
/// of the table; the index holds exactly the scopes that the writer comes to
/// from `s`; each of them is written, in full or by its path; and the table
/// holds nothing but their entries and the names and members of those that
/// are written in full.
pub open spec fn serialization_with(g: Graph, s: usize, e: Table, root: u64, w: Index) -> bool {
    &&& written(g, e, w)
    &&& w.contains_key(s)
    &&& w[s] == 0
    &&& root == 0
    &&& forall|t: usize|
        #![trigger w.contains_key(t)]
        #![trigger reaches(g, s, t)]
        w.contains_key(t) == reaches(g, s, t)
    &&& owned_from(e, w, 0)
}

/// The table `e` with the root index `root` is the serialization of the
/// scope `s` of `g`.
pub open spec fn serialization_of(g: Graph, s: usize, e: Table, root: u64) -> bool {
    exists|w: Index| serialization_with(g, s, e, root, w)
}

/// The writer has written every scope that it comes to from a scope that
/// it has written.
pub proof fn lemma_written_is_closed(g: Graph, e: Table, w: Index, s: usize, t: usize, n: nat)
    requires
        written(g, e, w),
        w.contains_key(s),
        leads(g, s, t, n),
    ensures
        w.contains_key(t),
    decreases n,
{
    if n > 0 {
        let u = choose|u: usize| #[trigger] link(g, u, t) && leads(g, s, u, (n - 1) as nat);
        lemma_written_is_closed(g, e, w, s, u, (n - 1) as nat);
        assert(encodes_scope(g, e, w, u));
        let ss = e[w[u] as int]->UserScope_0;
        assert(encodes_node(e, w, ss, g[u as int]));
        if g[u as int].parent_scope == Some(t) {
        } else if g[u as int].calling_scope == Some(t) {
        } else if exists|j: int| 0 <= j < g[u as int].uses.len() && #[trigger] g[u as int].uses[j] == t {
            let j = choose|j: int| 0 <= j < g[u as int].uses.len() && #[trigger] g[u as int].uses[j] == t;
            assert(w.contains_key(g[u as int].uses[j]));
        } else {
            let j = choose|j: int|
                0 <= j < g[u as int].mapping.len() && (#[trigger] g[u as int].mapping[j]).1 == ValueView::Scope(
                    t as nat,
                );
            assert(encodes_member(e, w, ss.members[j], g[u as int].mapping[j]));
        }
    }
}

/// A scope that has been written can be written: no scope that the writer
/// comes to from it binds a value that cannot be written.
pub proof fn lemma_written_is_clean(g: Graph, e: Table, w: Index, s: usize)
    requires
        written(g, e, w),
        w.contains_key(s),
    ensures
        !tainted(g, s),
{
    if tainted(g, s) {
        let t = choose|t: usize| #[trigger] reaches(g, s, t) && unwritable(g, t);
        let n = choose|n: nat| leads(g, s, t, n);
        lemma_written_is_closed(g, e, w, s, t, n);
        assert(encodes_scope(g, e, w, t));
        let ss = e[w[t] as int]->UserScope_0;
        assert(encodes_node(e, w, ss, g[t as int]));
        let j = choose|j: int| 0 <= j < g[t as int].mapping.len() && !serializable((#[trigger] g[t as int].mapping[j]).1);
        assert(encodes_member(e, w, ss.members[j], g[t as int].mapping[j]));
    }
}

/// What a writer that began with nothing has written is the serialization
/// of the scope it was asked for.
pub proof fn lemma_fresh_is_exact(g: Graph, scope: usize, e: Table, w: Index)
    requires
        advances(g, Seq::<ElementView>::empty(), Map::<usize, usize>::empty(), e, w),
        w.contains_key(scope),
        w[scope] == 0,
        reached_from(g, scope, Map::<usize, usize>::empty(), w),
        owned_from(e, w, 0),
    ensures
        serialization_with(g, scope, e, 0, w),
{
    assert forall|s: usize| #[trigger] w.contains_key(s) implies encodes_scope(g, e, w, s) by {
        assert(!(e[w[s] as int] is Unset));
    }
    assert(written(g, e, w));
    assert forall|t: usize|
        #![trigger w.contains_key(t)]
        #![trigger reaches(g, scope, t)]
        w.contains_key(t) == reaches(g, scope, t) by {
        if reaches(g, scope, t) {
            let n = choose|n: nat| leads(g, scope, t, n);
            lemma_written_is_closed(g, e, w, scope, t, n);
        }
    }
}

/// Writes the parts of a scope that has no full path, and then the scope
/// itself into the entry `idx` that was reserved for it.
#[verifier::rlimit(100)]
#[verifier::spinoff_prover]
fn write_in_full(
    graph: &ScopeGraph,
    scope: usize,
    idx: usize,
    elements: &mut Vec<Element>,
    state: &mut SerializationState,
    Ghost(e0): Ghost<Table>,
    Ghost(w0): Ghost<Index>,
) -> (r: CrushResult<()>)
    requires
        graph.wf(),
        scope < graph@.len(),
        full_path_of(graph@, scope as int) is None,
        writing(graph@, e0, w0),
        !w0.contains_key(scope),
        idx == e0.len(),
        elements_view(old(elements)) == e0.push(ElementView::Unset),
        old(state).with_id@ == w0.insert(scope, idx),
        writing(graph@, elements_view(old(elements)), old(state).with_id@),
    ensures
        match r {
            Ok(_) => advances(graph@, e0, w0, elements_view(final(elements)), final(state).with_id@)
                && final(state).with_id@.contains_key(scope) && final(state).with_id@[scope] == idx && reached_from(
                graph@,
                scope,
                w0,
                final(state).with_id@,
            ) && owned_from(elements_view(final(elements)), final(state).with_id@, e0.len()),
            Err(_) => refused(graph@, scope, r),
        },
    decreases unwritten(graph@, old(state).with_id@), 3int,
{
    let ghost g = graph@;
    let ghost e1 = elements_view(elements);
    let ghost w1 = state.with_id@;
    assert(node_wf(g[scope as int], g.len()));
    let node = graph.node(scope);
    let name = match &node.name {
        None => Name::HasName(false),
        Some(n) => Name::NameValue(push_string(elements, n.as_str()) as u64),
    };
    let ghost e2 = elements_view(elements);
    proof {
        if node.name is Some {
            lemma_push_advances(g, e1, w1, ElementView::String(node.name->0@));
            assert(name == Name::NameValue(e1.len() as u64));
            assert(e2.len() == e1.len() + 1);
        } else {
            lemma_advances_refl(g, e1, w1);
            assert(e2 == e1);
        }
        assert(name_ok(e2, Some(name), g[scope as int].name));
    }
    let parent = match serialize_link(graph, node.parent_scope, elements, state) {
        Ok(None) => Parent::HasParent(false),
        Ok(Some(i)) => Parent::ParentValue(i as u64),
        Err(e) => {
            proof {
                lemma_taint_spreads(g, scope, node.parent_scope->0);
            }
            return Err(e);
        },
    };
    let ghost e3 = elements_view(elements);
    let ghost w3 = state.with_id@;
    proof {
        lemma_advances_trans(g, e1, w1, e2, w1, e3, w3);
    }
    let calling = match serialize_link(graph, node.calling_scope, elements, state) {
        Ok(None) => Calling::HasCalling(false),
        Ok(Some(i)) => Calling::CallingValue(i as u64),
        Err(e) => {
            proof {
                lemma_taint_spreads(g, scope, node.calling_scope->0);
            }
            return Err(e);
        },
    };
    let ghost e4 = elements_view(elements);
    let ghost w4 = state.with_id@;
    proof {
        lemma_advances_trans(g, e1, w1, e3, w3, e4, w4);
    }
    let uses = match serialize_uses(graph, &node.uses, elements, state) {
        Ok(u) => u,
        Err(e) => {
            proof {
                let i = choose|i: int|
                    0 <= i < node.uses.len() && refused(g, #[trigger] node.uses[i], Err::<Vec<u64>, _>(e));
                assert(g[scope as int].uses[i] == node.uses[i]);
                lemma_taint_spreads(g, scope, node.uses[i]);
            }
            return Err(e);
        },
    };
    let ghost e5 = elements_view(elements);
    let ghost w5 = state.with_id@;
    proof {
        lemma_advances_trans(g, e1, w1, e4, w4, e5, w5);
    }
    let members = match serialize_members(graph, &node.mapping, elements, state) {
        Ok(m) => m,
        Err(e) => {
            proof {
                let bindings = crate::value::fields_view(&node.mapping);
                let i = choose|i: int|
                    0 <= i < node.mapping.len() && value_refused(
                        g,
                        (#[trigger] bindings[i]).1,
                        Err::<Vec<u64>, _>(e),
                    );
                assert(g[scope as int].mapping[i] == bindings[i]);
                if !serializable(bindings[i].1) {
                    assert(unwritable(g, scope));
                    lemma_unwritable_is_tainted(g, scope);
                } else {
                    lemma_taint_spreads(g, scope, bindings[i].1->Scope_0 as usize);
                }
            }
            return Err(e);
        },
    };
    let ghost e6 = elements_view(elements);
    let ghost w6 = state.with_id@;
    let ss = SerializedScope {
        name: Some(name),
        parent: Some(parent),
        calling: Some(calling),
        uses,
        members,
        is_loop: node.is_loop,
        is_stopped: node.is_stopped,
        is_readonly: node.is_readonly,
    };
    let ghost ssv = ss@;
    elements.set(idx, Element::UserScope(ss));
    proof {
        lemma_advances_trans(g, e1, w1, e5, w5, e6, w6);
        let e7 = elements_view(elements);
        assert(e7 =~= e6.update(idx as int, ElementView::UserScope(ssv)));
        // the parts of the node, each carried to the last state
        assert(continues(e2, w1, e6, w6)) by {
            lemma_continues_trans(e2, w1, e3, w3, e4, w4);
            lemma_continues_trans(e2, w1, e4, w4, e5, w5);
            lemma_continues_trans(e2, w1, e5, w5, e6, w6);
        }
        assert(continues(e3, w3, e6, w6)) by {
            lemma_continues_trans(e3, w3, e4, w4, e5, w5);
            lemma_continues_trans(e3, w3, e5, w5, e6, w6);
        }
        assert(continues(e4, w4, e6, w6)) by {
            lemma_continues_trans(e4, w4, e5, w5, e6, w6);
        }
        assert(name_ok(e6, ssv.name, g[scope as int].name));
        assert(parent_ok(w6, ssv.parent, g[scope as int].parent_scope));
        assert(calling_ok(w6, ssv.calling, g[scope as int].calling_scope));
        assert(uses_ok(w6, ssv.uses, g[scope as int].uses));
        assert(encodes_node(e6, w6, ssv, g[scope as int]));
        lemma_finish_user(g, e0, w0, e1, w1, e6, w6, e7, scope, idx, ssv);
        assert(w1.contains_key(scope));
        assert(w6.contains_key(scope));
        assert(e6[idx as int] is Unset);
        assert(continues(e6, w6, e7, w6));
        lemma_continues_trans(e3, w3, e6, w6, e7, w6);
        lemma_continues_trans(e4, w4, e6, w6, e7, w6);
        assert(continues(e5, w5, e6, w6));
        lemma_continues_trans(e5, w5, e6, w6, e7, w6);
        lemma_scope_reached(g, scope, w0, w1, w3, w4, w5, w6);
        lemma_scope_owned(e0.len(), e2, e3, w3, e4, w4, e5, w5, e6, w6, e7, scope, idx, ssv);
    }
    Ok(())
}

/// Writes `scope` and every scope that it leads to and that is not written
/// yet, and returns the index of its entry. A scope that is in the index
/// already is not written again: its index comes back, and the table and
/// the index stay as they are. The entry of a new scope is the next of the
/// table. A scope with a full path is written as that one entry, which
/// holds the path. What is added to the index are scopes that the writer
/// comes to from `scope`, and every entry that is appended has its place.
pub fn serialize_scope(
    graph: &ScopeGraph,
    scope: usize,
    elements: &mut Vec<Element>,
    state: &mut SerializationState,
) -> (r: CrushResult<usize>)
    requires
        graph.wf(),
        writing(graph@, elements_view(old(elements)), old(state).with_id@),
        scope < graph@.len(),
    ensures
        match r {
            Ok(idx) => advances(
                graph@,
                elements_view(old(elements)),
                old(state).with_id@,
                elements_view(final(elements)),
                final(state).with_id@,
            ) && final(state).with_id@.contains_key(scope) && final(state).with_id@[scope] == idx && reached_from(
                graph@,
                scope,
                old(state).with_id@,
                final(state).with_id@,
            ) && owned_from(elements_view(final(elements)), final(state).with_id@, old(elements).len() as nat),
            Err(_) => refused(graph@, scope, r),
        },
        old(state).with_id@.contains_key(scope) ==> r == Ok::<usize, crate::errors::CrushError>(
            old(state).with_id@[scope],
        ) && elements_view(final(elements)) == elements_view(old(elements)) && final(state).with_id@ == old(
            state,
        ).with_id@,
        !old(state).with_id@.contains_key(scope) ==> (r matches Ok(idx) ==> idx == old(elements).len()),
        !old(state).with_id@.contains_key(scope) ==> (full_path_of(graph@, scope as int) matches Some(p) ==> r is Ok
            && elements_view(final(elements)) == elements_view(old(elements)).push(ElementView::InternalScope(p))
            && final(state).with_id@ == old(state).with_id@.insert(scope, old(elements).len())),
        old(state).with_id@ == Map::<usize, usize>::empty() && old(elements).len() == 0 ==> (r matches Ok(idx)
            ==> serialization_with(
            graph@,
            scope,
            elements_view(final(elements)),
            idx as u64,
            final(state).with_id@,
        )),
    decreases unwritten(graph@, old(state).with_id@), 0int,
{
    broadcast use vstd::std_specs::hash::group_hash_axioms;

    let ghost g = graph@;
    let ghost e0 = elements_view(elements);
    let ghost w0 = state.with_id@;
    if state.with_id.contains_key(&scope) {
        proof {
            lemma_advances_refl(g, e0, w0);
        }
        assert(w0.contains_key(scope));
        let idx = *state.with_id.get(&scope).unwrap();
        return Ok(idx);
    }
    let idx = reserve(graph, scope, elements, state);
    let ghost e1 = elements_view(elements);
    let ghost w1 = state.with_id@;
    assert(node_wf(g[scope as int], g.len()));
    match graph.full_path(scope) {
        Ok(p) => {
            elements.set(idx, Element::InternalScope(p));
            proof {
                let e2 = elements_view(elements);
                assert(e2 =~= e1.update(idx as int, ElementView::InternalScope(strings_view(&p))));
                lemma_finish(g, e0, w0, e1, w1, e2, scope, idx);
                assert(w1.contains_key(scope));
                assert(e2 =~= e0.push(ElementView::InternalScope(strings_view(&p))));
                assert(leads(g, scope, scope, 0));
                assert(reaches(g, scope, scope));
                assert(indexed(w1, idx as int));
                if w0 == Map::<usize, usize>::empty() && e0.len() == 0 {
                    assert(e0 =~= Seq::<ElementView>::empty());
                    lemma_fresh_is_exact(g, scope, e2, w1);
                }
            }
            Ok(idx)
        },
        Err(_) => {
            match write_in_full(graph, scope, idx, elements, state, Ghost(e0), Ghost(w0)) {
                Ok(_) => {
                    proof {
                        if w0 == Map::<usize, usize>::empty() && e0.len() == 0 {
                            assert(e0 =~= Seq::<ElementView>::empty());
                            lemma_fresh_is_exact(g, scope, elements_view(elements), state.with_id@);
                        }
                    }
                    Ok(idx)
                },
                Err(e) => Err(e),
            }
        },
    }
}


/// A serialized scope graph: the element table and the index of the entry
/// of the scope that was asked for.
#[derive(Debug)]
pub struct SerializedGraph {
    pub elements: Vec<Element>,
    pub root: u64,
}

/// Serializes the scope `scope` with every scope that it leads to. Fails
/// exactly where a scope that is written in full on the way binds a value
/// that is neither data nor a scope. The entry of `scope` is the
/// first of the table, every scope on the way has one entry, and the table
/// holds nothing else but the names and the members of the scopes that are
/// written in full.
pub fn serialize(graph: &ScopeGraph, scope: usize) -> (r: CrushResult<SerializedGraph>)
    requires
        graph.wf(),
        scope < graph@.len(),
    ensures
        r is Err <==> tainted(graph@, scope),
        match r {
            Ok(out) => serialization_of(graph@, scope, elements_view(&out.elements), out.root),
            Err(_) => fails_with(r, ErrorKind::Generic, cannot_serialize()),
        },
{
    let mut elements: Vec<Element> = Vec::new();
    let mut state = SerializationState::new();
    proof {
        assert(state.with_id@.dom() =~= Set::empty());
    }
    match serialize_scope(graph, scope, &mut elements, &mut state) {
        Ok(idx) => {
            proof {
                let e = elements_view(&elements);
                let w = state.with_id@;
                assert forall|s: usize| #[trigger] w.contains_key(s) implies encodes_scope(graph@, e, w, s) by {
                    assert(!(e[w[s] as int] is Unset));
                }
                assert(written(graph@, e, w));
                lemma_written_is_clean(graph@, e, w, scope);
                assert forall|t: usize|
                    #![trigger w.contains_key(t)]
                    #![trigger reaches(graph@, scope, t)]
                    w.contains_key(t) == reaches(graph@, scope, t) by {
                    if reaches(graph@, scope, t) {
                        let n = choose|n: nat| leads(graph@, scope, t, n);
                        lemma_written_is_closed(graph@, e, w, scope, t, n);
                    }
                }
                assert(serialization_with(graph@, scope, e, idx as u64, w));
            }
            Ok(SerializedGraph { elements, root: idx as u64 })
        },
        Err(e) => Err(e),
    }
}

} // verus!
