//! Scopes: nested symbol tables that are shared by reference and may form
//! cycles. All the scopes of one environment live in a `ScopeGraph`; a scope
//! is named by its identity, its index there.

use vstd::prelude::*;
use crate::errors::{CrushResult, ErrorKind, error, lookup_error, fails_with};
use crate::text::{str_eq, strings_view};
use crate::value::{Value, ValueView, fields_view};

verus! {

/// One scope node.
#[derive(Debug)]
pub struct ScopeData {
    pub name: Option<String>,
    pub parent_scope: Option<usize>,
    pub calling_scope: Option<usize>,
    pub uses: Vec<usize>,
    pub mapping: Vec<(String, Value)>,
    pub is_loop: bool,
    pub is_stopped: bool,
    pub is_readonly: bool,
}

pub struct ScopeDataView {
    pub name: Option<Seq<char>>,
    pub parent_scope: Option<usize>,
    pub calling_scope: Option<usize>,
    pub uses: Seq<usize>,
    pub mapping: Seq<(Seq<char>, ValueView)>,
    pub is_loop: bool,
    pub is_stopped: bool,
    pub is_readonly: bool,
}

impl View for ScopeData {
    type V = ScopeDataView;

    open spec fn view(&self) -> ScopeDataView {
        ScopeDataView {
            name: match self.name {
                None => None,
                Some(n) => Some(n@),
            },
            parent_scope: self.parent_scope,
            calling_scope: self.calling_scope,
            uses: self.uses@,
            mapping: fields_view(&self.mapping),
            is_loop: self.is_loop,
            is_stopped: self.is_stopped,
            is_readonly: self.is_readonly,
        }
    }
}

/// A mapping as a sequence of bindings, oldest first.
pub type Mapping = Seq<(Seq<char>, ValueView)>;

/// A scope graph as the sequence of its nodes; the identity of a scope is its
/// index.
pub type Graph = Seq<ScopeDataView>;

/// Whether `name` is bound in `mapping`.
pub open spec fn binds(mapping: Mapping, name: Seq<char>) -> bool {
    exists|i: int| 0 <= i < mapping.len() && (#[trigger] mapping[i]).0 == name
}

/// Whether `i` is the first binding of `name` in `mapping`.
pub open spec fn is_first(mapping: Mapping, name: Seq<char>, i: int) -> bool {
    &&& 0 <= i < mapping.len()
    &&& mapping[i].0 == name
    &&& forall|j: int| 0 <= j < i ==> (#[trigger] mapping[j]).0 != name
}

/// The index of the first binding of `name`.
pub open spec fn first_index(mapping: Mapping, name: Seq<char>) -> int {
    choose|i: int| is_first(mapping, name, i)
}

/// The value that `mapping` binds `name` to.
pub open spec fn local_lookup(mapping: Mapping, name: Seq<char>) -> Option<ValueView> {
    if binds(mapping, name) {
        Some(mapping[first_index(mapping, name)].1)
    } else {
        None
    }
}

/// The first binding of `name` among the scopes `uses[k..]`, each asked for
/// its own mapping only.
pub open spec fn lookup_uses(g: Graph, uses: Seq<usize>, name: Seq<char>, k: int) -> Option<ValueView>
    decreases uses.len() - k,
{
    if k < 0 || k >= uses.len() {
        None
    } else {
        match local_lookup(g[uses[k] as int].mapping, name) {
            Some(v) => Some(v),
            None => lookup_uses(g, uses, name, k + 1),
        }
    }
}

/// What a bare name resolves to from scope `s`: the scope's own mapping, then
/// each used scope in order, then the parent, for at most `fuel` parents.
pub open spec fn lookup(g: Graph, s: int, name: Seq<char>, fuel: nat) -> Option<ValueView>
    decreases fuel,
{
    match local_lookup(g[s].mapping, name) {
        Some(v) => Some(v),
        None => match lookup_uses(g, g[s].uses, name, 0) {
            Some(v) => Some(v),
            None => match g[s].parent_scope {
                Some(p) => if fuel > 0 {
                    lookup(g, p as int, name, (fuel - 1) as nat)
                } else {
                    None
                },
                None => None,
            },
        },
    }
}

/// What a bare name resolves to from scope `s`. A chain of parents is
/// followed for as many steps as the graph has scopes, so a cycle of parents
/// ends the search.
pub open spec fn resolve(g: Graph, s: int, name: Seq<char>) -> Option<ValueView> {
    lookup(g, s, name, g.len())
}

/// What the dotted path `path[k..]` resolves to, when the components before
/// `k` have led to the scope `s`.
pub open spec fn resolve_path(g: Graph, s: int, path: Seq<Seq<char>>, k: int) -> Option<ValueView>
    decreases path.len() - k,
{
    if k < 0 || k >= path.len() {
        None
    } else {
        match resolve(g, s, path[k]) {
            None => None,
            Some(v) => if k + 1 == path.len() {
                Some(v)
            } else {
                match v {
                    ValueView::Scope(t) => if t < g.len() {
                        resolve_path(g, t as int, path, k + 1)
                    } else {
                        None
                    },
                    _ => None,
                }
            },
        }
    }
}

/// The names from the global root down to `s`, when the chain of parents of
/// `s` ends at the root within `fuel` steps and every scope on it has a name.
pub open spec fn path_to_root(g: Graph, s: int, fuel: nat) -> Option<Seq<Seq<char>>>
    decreases fuel,
{
    match g[s].name {
        None => None,
        Some(n) => if s == 0 {
            Some(seq![n])
        } else {
            match g[s].parent_scope {
                None => None,
                Some(p) => if fuel > 0 {
                    match path_to_root(g, p as int, (fuel - 1) as nat) {
                        Some(q) => Some(q.push(n)),
                        None => None,
                    }
                } else {
                    None
                },
            }
        },
    }
}

/// The full path of `s`: the names from the global root down to it. Only a
/// scope that hangs under the root by a chain of named parents has one.
pub open spec fn full_path_of(g: Graph, s: int) -> Option<Seq<Seq<char>>> {
    path_to_root(g, s, g.len())
}

/// What `path[k..]` leads to from the scope `s`, each component looked up in
/// the mapping of the scope that the one before it led to.
pub open spec fn descend(g: Graph, s: int, path: Seq<Seq<char>>, k: int) -> Option<ValueView>
    decreases path.len() - k,
{
    if k < 0 || k >= path.len() {
        Some(ValueView::Scope(s as nat))
    } else {
        match local_lookup(g[s].mapping, path[k]) {
            None => None,
            Some(v) => if k + 1 == path.len() {
                Some(v)
            } else {
                match v {
                    ValueView::Scope(t) => if t < g.len() {
                        descend(g, t as int, path, k + 1)
                    } else {
                        None
                    },
                    _ => None,
                }
            },
        }
    }
}

/// What a full path names: its first component must be the name of the
/// global root, and the rest is followed from there.
pub open spec fn global_value_of(g: Graph, path: Seq<Seq<char>>) -> Option<ValueView> {
    if g.len() > 0 && path.len() > 0 && g[0].name == Some(path[0]) {
        descend(g, 0, path, 1)
    } else {
        None
    }
}

/// The mapping after `name` has been bound anew: in place where it was
/// bound, at the end where it was not.
pub open spec fn rebound(mapping: Mapping, name: Seq<char>, value: ValueView) -> Mapping {
    if binds(mapping, name) {
        mapping.update(first_index(mapping, name), (name, value))
    } else {
        mapping.push((name, value))
    }
}

/// The imports after `other` has been imported: unchanged where it was there.
pub open spec fn imported(uses: Seq<usize>, other: usize) -> Seq<usize> {
    if uses.contains(other) {
        uses
    } else {
        uses.push(other)
    }
}

/// Whether the node refers only to scopes below `len`, imports no scope twice
/// and binds no name twice.
pub open spec fn node_wf(n: ScopeDataView, len: nat) -> bool {
    &&& n.parent_scope matches Some(p) ==> p < len
    &&& n.calling_scope matches Some(c) ==> c < len
    &&& forall|i: int| 0 <= i < n.uses.len() ==> #[trigger] n.uses[i] < len
    &&& n.uses.no_duplicates()
    &&& forall|i: int, j: int|
        0 <= i < j < n.mapping.len() ==> (#[trigger] n.mapping[i]).0 != (#[trigger] n.mapping[j]).0
    &&& forall|i: int|
        0 <= i < n.mapping.len() ==> ((#[trigger] n.mapping[i]).1 matches ValueView::Scope(t) ==> t < len)
}

/// Whether every node of the graph is well formed.
pub open spec fn graph_wf(g: Graph) -> bool {
    &&& g.len() > 0
    &&& forall|s: int| 0 <= s < g.len() ==> node_wf(#[trigger] g[s], g.len())
}

/// Whether a value may be stored in a graph of `len` scopes: a reference to a
/// scope must name one of them.
pub open spec fn storable(value: ValueView, len: nat) -> bool {
    value matches ValueView::Scope(t) ==> t < len
}

/// The first binding of `name` is the only index that `is_first` accepts.
pub proof fn lemma_first_index(mapping: Mapping, name: Seq<char>, i: int)
    requires
        is_first(mapping, name, i),
    ensures
        binds(mapping, name),
        first_index(mapping, name) == i,
{
    let j = first_index(mapping, name);
    assert(is_first(mapping, name, j));
    if j < i {
        assert(mapping[j].0 != name);
    } else if i < j {
        assert(mapping[i].0 != name);
    }
}

/// A name that is bound has a first binding.
pub proof fn lemma_bound_has_first(mapping: Mapping, name: Seq<char>, i: int)
    requires
        0 <= i < mapping.len(),
        mapping[i].0 == name,
    ensures
        binds(mapping, name),
        is_first(mapping, name, first_index(mapping, name)),
        first_index(mapping, name) <= i,
    decreases i,
{
    if forall|j: int| 0 <= j < i ==> (#[trigger] mapping[j]).0 != name {
        assert(is_first(mapping, name, i));
        lemma_first_index(mapping, name, i);
    } else {
        let j = choose|j: int| 0 <= j < i && (#[trigger] mapping[j]).0 == name;
        lemma_bound_has_first(mapping, name, j);
    }
}

/// What a lookup finds is the value of one of the bindings.
pub proof fn lemma_lookup_is_binding(mapping: Mapping, name: Seq<char>)
    requires
        binds(mapping, name),
    ensures
        is_first(mapping, name, first_index(mapping, name)),
        local_lookup(mapping, name) == Some(mapping[first_index(mapping, name)].1),
{
    let i = choose|i: int| 0 <= i < mapping.len() && (#[trigger] mapping[i]).0 == name;
    lemma_bound_has_first(mapping, name, i);
}

/// A name resolves to the value that it was last bound to.
pub proof fn lemma_rebound_lookup(mapping: Mapping, name: Seq<char>, value: ValueView)
    ensures
        local_lookup(rebound(mapping, name, value), name) == Some(value),
{
    let after = rebound(mapping, name, value);
    if binds(mapping, name) {
        lemma_lookup_is_binding(mapping, name);
        let i = first_index(mapping, name);
        assert(after[i] == (name, value));
        assert forall|j: int| 0 <= j < i implies (#[trigger] after[j]).0 != name by {
            assert(mapping[j].0 != name);
        }
        lemma_first_index(after, name, i);
    } else {
        let i = mapping.len() as int;
        assert(after[i] == (name, value));
        assert forall|j: int| 0 <= j < i implies (#[trigger] after[j]).0 != name by {
            assert(after[j] == mapping[j]);
        }
        lemma_first_index(after, name, i);
    }
}

/// What a path leads to, where it leads to a scope, is a scope of the graph.
pub proof fn lemma_descend_in_range(g: Graph, s: int, path: Seq<Seq<char>>, k: int)
    requires
        graph_wf(g),
        0 <= s < g.len(),
        descend(g, s, path, k) matches Some(ValueView::Scope(_)),
    ensures
        descend(g, s, path, k)->0->Scope_0 < g.len(),
    decreases path.len() - k,
{
    if 0 <= k < path.len() {
        assert(node_wf(g[s], g.len()));
        let v = local_lookup(g[s].mapping, path[k])->0;
        lemma_lookup_is_binding(g[s].mapping, path[k]);
        if k + 1 != path.len() {
            lemma_descend_in_range(g, v->Scope_0 as int, path, k + 1);
        }
    }
}

/// The index of the first binding of `name` in `mapping`, if there is one.
pub fn find_name(mapping: &Vec<(String, Value)>, name: &str) -> (r: Option<usize>)
    ensures
        match r {
            Some(i) => is_first(fields_view(mapping), name@, i as int),
            None => !binds(fields_view(mapping), name@),
        },
{
    let mut i: usize = 0;
    while i < mapping.len()
        invariant
            i <= mapping.len(),
            forall|j: int| 0 <= j < i ==> (#[trigger] fields_view(mapping)[j]).0 != name@,
        decreases mapping.len() - i,
    {
        if str_eq(mapping[i].0.as_str(), name) {
            return Some(i);
        }
        i += 1;
    }
    None
}

/// The value that `mapping` binds `name` to, if any.
pub fn find_value(mapping: &Vec<(String, Value)>, name: &str) -> (r: Option<Value>)
    ensures
        match r {
            Some(v) => local_lookup(fields_view(mapping), name@) == Some(v@),
            None => local_lookup(fields_view(mapping), name@) is None,
        },
{
    match find_name(mapping, name) {
        Some(i) => {
            proof {
                lemma_first_index(fields_view(mapping), name@, i as int);
            }
            Some(mapping[i].1.duplicate())
        },
        None => None,
    }
}


/// All the scopes of one environment. Scope 0 is the global root.
#[derive(Debug)]
pub struct ScopeGraph {
    scopes: Vec<ScopeData>,
}

impl View for ScopeGraph {
    type V = Graph;

    closed spec fn view(&self) -> Graph {
        Seq::new(self.scopes.len() as nat, |i: int| self.scopes[i]@)
    }
}

/// A node with the given name and flags, and nothing else.
pub open spec fn fresh_node(name: Option<Seq<char>>, is_loop: bool, is_stopped: bool, is_readonly: bool) -> ScopeDataView {
    ScopeDataView {
        name,
        parent_scope: None,
        calling_scope: None,
        uses: Seq::empty(),
        mapping: Seq::empty(),
        is_loop,
        is_stopped,
        is_readonly,
    }
}

/// The name of the global root.
pub open spec fn root_name() -> Seq<char> {
    "global"@
}

impl ScopeGraph {
    /// Whether every scope refers only to scopes of this graph, imports no
    /// scope twice and binds no name twice.
    pub open spec fn wf(&self) -> bool {
        graph_wf(self@)
    }

    /// A graph that holds the global root and nothing else.
    pub fn new() -> (g: ScopeGraph)
        ensures
            g.wf(),
            g@ == seq![fresh_node(Some(root_name()), false, false, false)],
    {
        let mut scopes: Vec<ScopeData> = Vec::new();
        scopes.push(
            ScopeData {
                name: Some("global".to_string()),
                parent_scope: None,
                calling_scope: None,
                uses: Vec::new(),
                mapping: Vec::new(),
                is_loop: false,
                is_stopped: false,
                is_readonly: false,
            },
        );
        let g = ScopeGraph { scopes };
        assert(g@ =~= seq![fresh_node(Some(root_name()), false, false, false)]) by {
            assert(g@[0].mapping =~= Seq::empty());
            assert(g@[0].uses =~= Seq::empty());
        }
        g
    }

    /// The number of scopes.
    pub fn len(&self) -> (n: usize)
        ensures
            n == self@.len(),
    {
        self.scopes.len()
    }

    /// Whether `scope` names a scope of this graph.
    pub fn contains(&self, scope: usize) -> (r: bool)
        ensures
            r == (scope < self@.len()),
    {
        scope < self.scopes.len()
    }

    /// The node of `scope`.
    pub fn node(&self, scope: usize) -> (n: &ScopeData)
        requires
            scope < self@.len(),
        ensures
            n@ == self@[scope as int],
    {
        &self.scopes[scope]
    }

    /// A new scope with no parent, no caller, no imports and no bindings.
    pub fn create(
        &mut self,
        name: Option<String>,
        is_loop: bool,
        is_stopped: bool,
        is_readonly: bool,
    ) -> (id: usize)
        requires
            old(self).wf(),
        ensures
            final(self).wf(),
            id == old(self)@.len(),
            final(self)@ == old(self)@.push(
                fresh_node(
                    match name {
                        None => None,
                        Some(n) => Some(n@),
                    },
                    is_loop,
                    is_stopped,
                    is_readonly,
                ),
            ),
    {
        let id = self.scopes.len();
        let node = ScopeData {
            name,
            parent_scope: None,
            calling_scope: None,
            uses: Vec::new(),
            mapping: Vec::new(),
            is_loop,
            is_stopped,
            is_readonly,
        };
        proof {
            assert(node@.mapping =~= Seq::empty());
            assert(node@.uses =~= Seq::empty());
        }
        self.scopes.push(node);
        proof {
            assert(self@ =~= old(self)@.push(node@));
            assert forall|s: int| 0 <= s < self@.len() implies node_wf(#[trigger] self@[s], self@.len()) by {
                if s < old(self)@.len() {
                    assert(node_wf(old(self)@[s], old(self)@.len()));
                }
            }
        }
        id
    }

    /// Sets or clears the lexical parent of `scope`.
    pub fn set_parent(&mut self, scope: usize, parent: Option<usize>)
        requires
            old(self).wf(),
            scope < old(self)@.len(),
            parent matches Some(p) ==> p < old(self)@.len(),
        ensures
            final(self).wf(),
            final(self)@ == old(self)@.update(
                scope as int,
                ScopeDataView { parent_scope: parent, ..old(self)@[scope as int] },
            ),
    {
        self.scopes[scope].parent_scope = parent;
        proof {
            assert(self@ =~= old(self)@.update(
                scope as int,
                ScopeDataView { parent_scope: parent, ..old(self)@[scope as int] },
            ));
            assert forall|s: int| 0 <= s < self@.len() implies node_wf(#[trigger] self@[s], self@.len()) by {
                assert(node_wf(old(self)@[s], old(self)@.len()));
            }
        }
    }

    /// Sets or clears the dynamic caller of `scope`.
    pub fn set_calling(&mut self, scope: usize, calling: Option<usize>)
        requires
            old(self).wf(),
            scope < old(self)@.len(),
            calling matches Some(c) ==> c < old(self)@.len(),
        ensures
            final(self).wf(),
            final(self)@ == old(self)@.update(
                scope as int,
                ScopeDataView { calling_scope: calling, ..old(self)@[scope as int] },
            ),
    {
        self.scopes[scope].calling_scope = calling;
        proof {
            assert(self@ =~= old(self)@.update(
                scope as int,
                ScopeDataView { calling_scope: calling, ..old(self)@[scope as int] },
            ));
            assert forall|s: int| 0 <= s < self@.len() implies node_wf(#[trigger] self@[s], self@.len()) by {
                assert(node_wf(old(self)@[s], old(self)@.len()));
            }
        }
    }

    /// Marks `scope` as stopped: a break or a return has passed through it.
    /// Nothing clears the mark again.
    pub fn stop(&mut self, scope: usize)
        requires
            old(self).wf(),
            scope < old(self)@.len(),
        ensures
            final(self).wf(),
            final(self)@ == old(self)@.update(
                scope as int,
                ScopeDataView { is_stopped: true, ..old(self)@[scope as int] },
            ),
    {
        self.scopes[scope].is_stopped = true;
        proof {
            assert(self@ =~= old(self)@.update(
                scope as int,
                ScopeDataView { is_stopped: true, ..old(self)@[scope as int] },
            ));
            assert forall|s: int| 0 <= s < self@.len() implies node_wf(#[trigger] self@[s], self@.len()) by {
                assert(node_wf(old(self)@[s], old(self)@.len()));
            }
        }
    }

    /// Imports `other` into `scope`, unless it is imported already.
    pub fn use_scope(&mut self, scope: usize, other: usize)
        requires
            old(self).wf(),
            scope < old(self)@.len(),
            other < old(self)@.len(),
        ensures
            final(self).wf(),
            final(self)@ == old(self)@.update(
                scope as int,
                ScopeDataView {
                    uses: imported(old(self)@[scope as int].uses, other),
                    ..old(self)@[scope as int]
                },
            ),
    {
        let ghost before = self@[scope as int];
        assert(node_wf(before, self@.len()));
        let mut i: usize = 0;
        let mut found = false;
        while i < self.scopes[scope].uses.len()
            invariant
                scope < self.scopes.len(),
                i <= self.scopes[scope as int].uses.len(),
                found == exists|j: int| 0 <= j < i && self.scopes[scope as int].uses[j] == other,
            decreases self.scopes[scope as int].uses.len() - i,
        {
            if self.scopes[scope].uses[i] == other {
                found = true;
            }
            i += 1;
        }
        assert(found == before.uses.contains(other));
        if !found {
            self.scopes[scope].uses.push(other);
        }
        proof {
            assert(self@ =~= old(self)@.update(
                scope as int,
                ScopeDataView { uses: imported(before.uses, other), ..before },
            ));
            assert forall|s: int| 0 <= s < self@.len() implies node_wf(#[trigger] self@[s], self@.len()) by {
                assert(node_wf(old(self)@[s], old(self)@.len()));
            }
        }
    }

    /// Binds `name` in `scope`. Fails, and changes nothing, if the scope
    /// binds the name already.
    pub fn declare(&mut self, scope: usize, name: &str, value: Value) -> (r: CrushResult<()>)
        requires
            old(self).wf(),
            scope < old(self)@.len(),
            storable(value@, old(self)@.len()),
        ensures
            final(self).wf(),
            binds(old(self)@[scope as int].mapping, name@) ==> fails_with(
                r,
                ErrorKind::Generic,
                "Variable already exists"@,
            ) && final(self)@ == old(self)@,
            !binds(old(self)@[scope as int].mapping, name@) ==> r is Ok && final(self)@ == old(self)@.update(
                scope as int,
                ScopeDataView {
                    mapping: old(self)@[scope as int].mapping.push((name@, value@)),
                    ..old(self)@[scope as int]
                },
            ),
    {
        let ghost before = self@[scope as int];
        assert(node_wf(before, self@.len()));
        match find_name(&self.scopes[scope].mapping, name) {
            Some(_) => error("Variable already exists"),
            None => {
                self.scopes[scope].mapping.push((name.to_string(), value));
                proof {
                    let after = ScopeDataView { mapping: before.mapping.push((name@, value@)), ..before };
                    assert(self@[scope as int].mapping =~= after.mapping);
                    assert(self@ =~= old(self)@.update(scope as int, after));
                    assert forall|s: int| 0 <= s < self@.len() implies node_wf(#[trigger] self@[s], self@.len()) by {
                        assert(node_wf(old(self)@[s], old(self)@.len()));
                    }
                }
                Ok(())
            },
        }
    }

    /// Binds `name` in `scope`, whether or not it is bound there already
    /// and whether or not the scope is read-only: in place where the name was
    /// bound, at the end where it was not. This is how a scope that is read
    /// back gets its bindings.
    pub(crate) fn restore(&mut self, scope: usize, name: &str, value: Value)
        requires
            old(self).wf(),
            scope < old(self)@.len(),
            storable(value@, old(self)@.len()),
        ensures
            final(self).wf(),
            final(self)@ == old(self)@.update(
                scope as int,
                ScopeDataView {
                    mapping: rebound(old(self)@[scope as int].mapping, name@, value@),
                    ..old(self)@[scope as int]
                },
            ),
    {
        let ghost before = self@[scope as int];
        assert(node_wf(before, self@.len()));
        match find_name(&self.scopes[scope].mapping, name) {
            Some(i) => {
                proof {
                    lemma_first_index(before.mapping, name@, i as int);
                }
                self.scopes[scope].mapping[i] = (name.to_string(), value);
            },
            None => {
                self.scopes[scope].mapping.push((name.to_string(), value));
            },
        }
        proof {
            let after = ScopeDataView { mapping: rebound(before.mapping, name@, value@), ..before };
            assert(self@[scope as int].mapping =~= after.mapping);
            assert(self@ =~= old(self)@.update(scope as int, after));
            assert forall|s: int| 0 <= s < self@.len() implies node_wf(#[trigger] self@[s], self@.len()) by {
                assert(node_wf(old(self)@[s], old(self)@.len()));
            }
        }
    }

    /// Binds `name` in `scope`, whether or not it is bound there already.
    /// Fails, and changes nothing, if the scope is read-only.
    pub fn redeclare(&mut self, scope: usize, name: &str, value: Value) -> (r: CrushResult<()>)
        requires
            old(self).wf(),
            scope < old(self)@.len(),
            storable(value@, old(self)@.len()),
        ensures
            final(self).wf(),
            old(self)@[scope as int].is_readonly ==> fails_with(r, ErrorKind::Generic, "Scope is read only"@)
                && final(self)@ == old(self)@,
            !old(self)@[scope as int].is_readonly ==> r is Ok && final(self)@ == old(self)@.update(
                scope as int,
                ScopeDataView {
                    mapping: rebound(old(self)@[scope as int].mapping, name@, value@),
                    ..old(self)@[scope as int]
                },
            ),
    {
        if self.scopes[scope].is_readonly {
            return error("Scope is read only");
        }
        self.restore(scope, name, value);
        Ok(())
    }

    /// What the bare name `name` resolves to from `scope`: the scope's own
    /// binding, else that of the first imported scope that binds it, else what
    /// it resolves to from the parent.
    pub fn get_str(&self, scope: usize, name: &str) -> (r: Option<Value>)
        requires
            self.wf(),
            scope < self@.len(),
        ensures
            match r {
                Some(v) => resolve(self@, scope as int, name@) == Some(v@),
                None => resolve(self@, scope as int, name@) is None,
            },
    {
        let mut cur: usize = scope;
        let mut fuel: usize = self.scopes.len();
        loop
            invariant
                self.wf(),
                cur < self@.len(),
                resolve(self@, scope as int, name@) == lookup(self@, cur as int, name@, fuel as nat),
            decreases fuel,
        {
            let node = &self.scopes[cur];
            assert(node@ == self@[cur as int]);
            assert(node_wf(self@[cur as int], self@.len()));
            match find_value(&node.mapping, name) {
                Some(v) => {
                    return Some(v);
                },
                None => {},
            }
            let mut k: usize = 0;
            while k < node.uses.len()
                invariant
                    self.wf(),
                    k <= node.uses.len(),
                    node@ == self@[cur as int],
                    cur < self@.len(),
                    node_wf(self@[cur as int], self@.len()),
                    local_lookup(self@[cur as int].mapping, name@) is None,
                    resolve(self@, scope as int, name@) == lookup(self@, cur as int, name@, fuel as nat),
                    lookup_uses(self@, node.uses@, name@, 0) == lookup_uses(self@, node.uses@, name@, k as int),
                decreases node.uses.len() - k,
            {
                let u = node.uses[k];
                assert(node@.uses[k as int] < self@.len());
                match find_value(&self.scopes[u].mapping, name) {
                    Some(v) => {
                        return Some(v);
                    },
                    None => {},
                }
                k += 1;
            }
            match node.parent_scope {
                Some(p) => {
                    if fuel == 0 {
                        return None;
                    }
                    cur = p;
                    fuel -= 1;
                },
                None => {
                    return None;
                },
            }
        }
    }

    /// What the dotted path resolves to from `scope`: each component is
    /// resolved as a bare name, and every component but the last must resolve
    /// to a scope, in which the next one is resolved.
    pub fn get(&self, scope: usize, path: &Vec<String>) -> (r: Option<Value>)
        requires
            self.wf(),
            scope < self@.len(),
        ensures
            match r {
                Some(v) => resolve_path(self@, scope as int, strings_view(path), 0) == Some(v@),
                None => resolve_path(self@, scope as int, strings_view(path), 0) is None,
            },
    {
        let mut cur: usize = scope;
        let mut k: usize = 0;
        while k < path.len()
            invariant
                self.wf(),
                cur < self@.len(),
                k <= path.len(),
                resolve_path(self@, scope as int, strings_view(path), 0) == resolve_path(
                    self@,
                    cur as int,
                    strings_view(path),
                    k as int,
                ),
            decreases path.len() - k,
        {
            assert(strings_view(path)[k as int] == path[k as int]@);
            match self.get_str(cur, path[k].as_str()) {
                None => {
                    return None;
                },
                Some(v) => {
                    if k + 1 == path.len() {
                        return Some(v);
                    }
                    match v {
                        Value::Scope(t) => {
                            if t < self.scopes.len() {
                                cur = t;
                            } else {
                                return None;
                            }
                        },
                        _ => {
                            return None;
                        },
                    }
                },
            }
            k += 1;
        }
        None
    }

    /// A snapshot of the node of `scope`.
    pub fn export(&self, scope: usize) -> (r: ScopeData)
        requires
            scope < self@.len(),
        ensures
            r@ == self@[scope as int],
    {
        let node = &self.scopes[scope];
        let name = match &node.name {
            None => None,
            Some(n) => Some(n.clone()),
        };
        let mut uses: Vec<usize> = Vec::new();
        let mut i: usize = 0;
        while i < node.uses.len()
            invariant
                i <= node.uses.len(),
                uses@ == node.uses@.take(i as int),
            decreases node.uses.len() - i,
        {
            uses.push(node.uses[i]);
            assert(node.uses@.take(i as int + 1) =~= node.uses@.take(i as int).push(node.uses@[i as int]));
            i += 1;
        }
        assert(node.uses@.take(i as int) =~= node.uses@);
        let mut mapping: Vec<(String, Value)> = Vec::new();
        let mut j: usize = 0;
        while j < node.mapping.len()
            invariant
                j <= node.mapping.len(),
                mapping.len() == j,
                forall|m: int| 0 <= m < j ==> mapping[m].0@ == node.mapping[m].0@ && mapping[m].1@ == node.mapping[m].1@,
            decreases node.mapping.len() - j,
        {
            mapping.push((node.mapping[j].0.clone(), node.mapping[j].1.duplicate()));
            j += 1;
        }
        assert(fields_view(&mapping) =~= fields_view(&node.mapping));
        ScopeData {
            name,
            parent_scope: node.parent_scope,
            calling_scope: node.calling_scope,
            uses,
            mapping,
            is_loop: node.is_loop,
            is_stopped: node.is_stopped,
            is_readonly: node.is_readonly,
        }
    }

    fn path_from_root(&self, scope: usize, fuel: usize) -> (r: Option<Vec<String>>)
        requires
            self.wf(),
            scope < self@.len(),
        ensures
            match r {
                Some(p) => path_to_root(self@, scope as int, fuel as nat) == Some(strings_view(&p)),
                None => path_to_root(self@, scope as int, fuel as nat) is None,
            },
        decreases fuel,
    {
        let node = &self.scopes[scope];
        assert(node@ == self@[scope as int]);
        assert(node_wf(self@[scope as int], self@.len()));
        match &node.name {
            None => None,
            Some(n) => {
                if scope == 0 {
                    let mut p: Vec<String> = Vec::new();
                    p.push(n.clone());
                    assert(strings_view(&p) =~= seq![n@]);
                    Some(p)
                } else {
                    match node.parent_scope {
                        None => None,
                        Some(parent) => {
                            if fuel == 0 {
                                return None;
                            }
                            match self.path_from_root(parent, fuel - 1) {
                                None => None,
                                Some(q) => {
                                    let mut p = q;
                                    let ghost before = strings_view(&p);
                                    p.push(n.clone());
                                    assert(strings_view(&p) =~= before.push(n@));
                                    Some(p)
                                },
                            }
                        },
                    }
                }
            },
        }
    }

    /// The full path of `scope`: the names from the global root down to it.
    /// Fails for a scope that has none.
    pub fn full_path(&self, scope: usize) -> (r: CrushResult<Vec<String>>)
        requires
            self.wf(),
            scope < self@.len(),
        ensures
            match r {
                Ok(p) => full_path_of(self@, scope as int) == Some(strings_view(&p)),
                Err(_) => full_path_of(self@, scope as int) is None && fails_with(
                    r,
                    ErrorKind::Generic,
                    "Scope has no full path"@,
                ),
            },
    {
        match self.path_from_root(scope, self.scopes.len()) {
            Some(p) => Ok(p),
            None => error("Scope has no full path"),
        }
    }

    /// The value that a full path names, looked up from the global root.
    pub fn global_value(&self, path: &Vec<String>) -> (r: CrushResult<Value>)
        requires
            self.wf(),
        ensures
            match r {
                Ok(v) => global_value_of(self@, strings_view(path)) == Some(v@),
                Err(_) => global_value_of(self@, strings_view(path)) is None && fails_with(
                    r,
                    ErrorKind::Lookup,
                    "Unknown path"@,
                ),
            },
    {
        if self.scopes.len() == 0 || path.len() == 0 {
            return lookup_error("Unknown path");
        }
        assert(self.scopes[0]@ == self@[0]);
        assert(strings_view(path)[0] == path[0]@);
        let is_root = match &self.scopes[0].name {
            None => false,
            Some(n) => str_eq(n.as_str(), path[0].as_str()),
        };
        if !is_root {
            return lookup_error("Unknown path");
        }
        let mut cur: usize = 0;
        let mut k: usize = 1;
        while k < path.len()
            invariant
                self.wf(),
                cur < self@.len(),
                1 <= k <= path.len(),
                global_value_of(self@, strings_view(path)) == descend(self@, cur as int, strings_view(path), k as int),
            decreases path.len() - k,
        {
            assert(strings_view(path)[k as int] == path[k as int]@);
            assert(self.scopes[cur as int]@ == self@[cur as int]);
            match find_value(&self.scopes[cur].mapping, path[k].as_str()) {
                None => {
                    return lookup_error("Unknown path");
                },
                Some(v) => {
                    if k + 1 == path.len() {
                        return Ok(v);
                    }
                    match v {
                        Value::Scope(t) => {
                            if t < self.scopes.len() {
                                cur = t;
                            } else {
                                return lookup_error("Unknown path");
                            }
                        },
                        _ => {
                            return lookup_error("Unknown path");
                        },
                    }
                },
            }
            k += 1;
        }
        Ok(Value::Scope(cur))
    }
}

} // verus!
