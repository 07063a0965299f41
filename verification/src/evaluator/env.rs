//! Chained scopes: where names are bound and looked up.

use vstd::prelude::*;
use vstd::hash_map::StringHashMap;
use crate::evaluator::object::{Object, ObjectView};

verus! {

/// One scope: its own bindings, and the scope around it.
pub struct Scope {
    store: StringHashMap<Object>,
    parent: Option<usize>,
}

/// What a scope stands for.
pub struct ScopeView {
    pub store: Map<Seq<char>, ObjectView>,
    pub parent: Option<usize>,
}

/// What an [`Environment`] stands for: its scopes, each known by its place,
/// and the lines written so far.
pub struct EnvironmentView {
    pub scopes: Seq<ScopeView>,
    pub output: Seq<Seq<char>>,
}

/// All the scopes of one run, each known by its place among them, and the
/// lines that the program has written. Scope 0 is the outermost. Every
/// function value has a scope of its own, and so has every call. Scopes are
/// never dropped, so a place stays good.
pub struct Environment {
    scopes: Vec<Scope>,
    output: Vec<String>,
}

impl View for Scope {
    type V = ScopeView;

    closed spec fn view(&self) -> ScopeView {
        ScopeView { store: self.store@.map_values(|o: Object| o@), parent: self.parent }
    }
}

impl DeepView for Scope {
    type V = ScopeView;

    open spec fn deep_view(&self) -> ScopeView {
        self@
    }
}

impl View for Environment {
    type V = EnvironmentView;

    closed spec fn view(&self) -> EnvironmentView {
        EnvironmentView { scopes: self.scopes.deep_view(), output: self.output.deep_view() }
    }
}

impl EnvironmentView {
    /// One empty scope, nothing written.
    pub open spec fn fresh() -> EnvironmentView {
        EnvironmentView {
            scopes: seq![ScopeView { store: Map::empty(), parent: None }],
            output: Seq::empty(),
        }
    }

    /// What `name` is bound to as seen from `scope`: the binding of the nearest
    /// scope around that has one, and `Null` where none has. A scope that is
    /// not there binds nothing.
    pub open spec fn lookup(self, scope: usize, name: Seq<char>) -> ObjectView
        decreases scope,
    {
        if scope >= self.scopes.len() {
            ObjectView::Null
        } else if self.scopes[scope as int].store.contains_key(name) {
            self.scopes[scope as int].store[name]
        } else {
            match self.scopes[scope as int].parent {
                Some(parent) => if parent < scope {
                    self.lookup(parent, name)
                } else {
                    ObjectView::Null
                },
                None => ObjectView::Null,
            }
        }
    }

    /// The environment with `name` bound to `value` in `scope` itself,
    /// whatever it was bound to there before.
    pub open spec fn bind(self, scope: usize, name: Seq<char>, value: ObjectView)
        -> EnvironmentView {
        if scope >= self.scopes.len() {
            self
        } else {
            EnvironmentView {
                scopes: self.scopes.update(
                    scope as int,
                    ScopeView {
                        store: self.scopes[scope as int].store.insert(name, value),
                        parent: self.scopes[scope as int].parent,
                    },
                ),
                output: self.output,
            }
        }
    }

    /// The environment with one more scope, empty, inside `parent`. Its place
    /// is the number of scopes there were.
    pub open spec fn child(self, parent: usize) -> EnvironmentView {
        EnvironmentView {
            scopes: self.scopes.push(ScopeView { store: Map::empty(), parent: Some(parent) }),
            output: self.output,
        }
    }

    /// The environment with one more line written.
    pub open spec fn write(self, line: Seq<char>) -> EnvironmentView {
        EnvironmentView { scopes: self.scopes, output: self.output.push(line) }
    }
}

impl Default for Environment {
    fn default() -> (env: Self)
        ensures
            env@ == EnvironmentView::fresh(),
    {
        Environment::new()
    }
}

impl Environment {
    /// An environment of one empty scope.
    pub fn new() -> (env: Self)
        ensures
            env@ == EnvironmentView::fresh(),
    {
        let mut scopes: Vec<Scope> = Vec::new();
        scopes.push(Scope { store: StringHashMap::new(), parent: None });
        let env = Environment { scopes, output: Vec::new() };
        proof {
            assert(env.scopes@[0]@.store =~= Map::<Seq<char>, ObjectView>::empty());
            assert(env@.scopes =~= EnvironmentView::fresh().scopes);
            assert(env@.output =~= EnvironmentView::fresh().output);
        }
        env
    }

    /// Adds an empty scope inside `parent` and gives its place.
    pub fn with_parent(&mut self, parent: usize) -> (scope: usize)
        ensures
            final(self)@ == old(self)@.child(parent),
            scope == old(self)@.scopes.len(),
    {
        let scope = self.scopes.len();
        self.scopes.push(Scope { store: StringHashMap::new(), parent: Some(parent) });
        proof {
            assert(self.scopes@[scope as int]@.store =~= Map::<Seq<char>, ObjectView>::empty());
            assert(self@.scopes =~= old(self)@.child(parent).scopes);
        }
        scope
    }

    /// Binds `name` to `value` in `scope` itself.
    pub fn set(&mut self, scope: usize, name: String, value: Object)
        ensures
            final(self)@ == old(self)@.bind(scope, name@, value@),
    {
        if scope < self.scopes.len() {
            self.scopes[scope].store.insert(name, value);
            proof {
                assert(self.scopes@[scope as int]@.store =~= old(self)@.scopes[scope as int].store.insert(name@, value@));
                assert(self@.scopes =~= old(self)@.bind(scope, name@, value@).scopes);
            }
        }
    }

    /// What `name` is bound to as seen from `scope`.
    pub fn get(&self, scope: usize, name: &str) -> (value: Object)
        ensures
            value@ == self@.lookup(scope, name@),
    {
        let mut current = scope;
        loop
            invariant
                self@.lookup(scope, name@) == self@.lookup(current, name@),
            decreases current,
        {
            if current >= self.scopes.len() {
                return Object::Null;
            }
            match self.scopes[current].store.get(name) {
                Some(value) => {
                    return value.duplicate();
                },
                None => {},
            }
            match self.scopes[current].parent {
                Some(parent) => {
                    if parent < current {
                        current = parent;
                    } else {
                        return Object::Null;
                    }
                },
                None => {
                    return Object::Null;
                },
            }
        }
    }

    /// Writes one line.
    pub fn write_line(&mut self, line: String)
        ensures
            final(self)@ == old(self)@.write(line@),
    {
        self.output.push(line);
        proof {
            assert(self@.output =~= old(self)@.output.push(line@));
        }
    }

    /// Takes out the lines written so far, oldest first, and leaves none.
    pub fn take_output(&mut self) -> (lines: Vec<String>)
        ensures
            lines.deep_view() == old(self)@.output,
            final(self)@ == (EnvironmentView {
                scopes: old(self)@.scopes,
                output: Seq::empty(),
            }),
    {
        let mut lines: Vec<String> = Vec::new();
        core::mem::swap(&mut lines, &mut self.output);
        proof {
            assert(self@.output =~= Seq::<Seq<char>>::empty());
        }
        lines
    }

    /// The lines written so far, oldest first.
    pub fn output(&self) -> (lines: &Vec<String>)
        ensures
            lines.deep_view() == self@.output,
    {
        &self.output
    }
}

impl EnvironmentView {
    /// Whether the scopes from `inner` outwards reach `scope` before any of
    /// them binds `name`.
    pub open spec fn sees(self, inner: usize, scope: usize, name: Seq<char>) -> bool
        decreases inner,
    {
        if inner == scope {
            scope < self.scopes.len()
        } else if inner >= self.scopes.len() || self.scopes[inner as int].store.contains_key(name) {
            false
        } else {
            match self.scopes[inner as int].parent {
                Some(parent) => parent < inner && self.sees(parent, scope, name),
                None => false,
            }
        }
    }
}

impl EnvironmentView {
    /// Whether this environment is `earlier` grown: it holds the scopes of
    /// `earlier` at their places, each inside the same scope as before, and
    /// the lines of `earlier` before any others.
    pub open spec fn extends(self, earlier: EnvironmentView) -> bool {
        &&& earlier.scopes.len() <= self.scopes.len()
        &&& forall|i: int|
            0 <= i < earlier.scopes.len() ==> (#[trigger] self.scopes[i]).parent
                == earlier.scopes[i].parent
        &&& earlier.output.len() <= self.output.len()
        &&& forall|i: int|
            0 <= i < earlier.output.len() ==> #[trigger] self.output[i] == earlier.output[i]
    }
}

/// To bind a name, to add a scope and to write a line each grow the
/// environment; and what has grown from a grown environment has grown from
/// the first.
pub proof fn lemma_extends(
    env: EnvironmentView,
    middle: EnvironmentView,
    last: EnvironmentView,
    scope: usize,
    name: Seq<char>,
    value: ObjectView,
)
    ensures
        env.extends(env),
        env.bind(scope, name, value).extends(env),
        env.child(scope).extends(env),
        env.write(name).extends(env),
        last.extends(middle) && middle.extends(env) ==> last.extends(env),
{
    if last.extends(middle) && middle.extends(env) {
        assert forall|i: int| 0 <= i < env.scopes.len() implies (#[trigger] last.scopes[i]).parent
            == env.scopes[i].parent by {
            assert(middle.scopes[i].parent == env.scopes[i].parent);
        }
        assert forall|i: int| 0 <= i < env.output.len() implies #[trigger] last.output[i]
            == env.output[i] by {
            assert(middle.output[i] == env.output[i]);
        }
    }
}

/// A binding is found again in its own scope.
pub proof fn lemma_bind_then_lookup(
    env: EnvironmentView,
    scope: usize,
    name: Seq<char>,
    value: ObjectView,
)
    requires
        scope < env.scopes.len(),
    ensures
        env.bind(scope, name, value).lookup(scope, name) == value,
{
}

/// Binding one name changes what no other name is bound to, seen from
/// anywhere.
pub proof fn lemma_bind_keeps_other_names(
    env: EnvironmentView,
    scope: usize,
    name: Seq<char>,
    value: ObjectView,
    from: usize,
    other: Seq<char>,
)
    requires
        other != name,
    ensures
        env.bind(scope, name, value).lookup(from, other) == env.lookup(from, other),
    decreases from,
{
    if from < env.scopes.len() {
        match env.scopes[from as int].parent {
            Some(parent) => {
                if parent < from {
                    lemma_bind_keeps_other_names(env, scope, name, value, parent, other);
                }
            },
            None => {},
        }
    }
}

/// Scopes are shared, not copied. A binding made in `scope` is seen from
/// every scope inside it that does not bind the name itself, whenever that
/// scope was made: a function sees what its surroundings bind after the
/// function was made.
pub proof fn lemma_bind_seen_from_inside(
    env: EnvironmentView,
    scope: usize,
    name: Seq<char>,
    value: ObjectView,
    inner: usize,
)
    requires
        env.sees(inner, scope, name),
    ensures
        env.bind(scope, name, value).lookup(inner, name) == value,
    decreases inner,
{
    if inner != scope {
        lemma_bind_seen_from_inside(env, scope, name, value, env.scopes[inner as int].parent->0);
    }
}

/// A new scope changes what no name is bound to as seen from the scopes
/// there were.
pub proof fn lemma_child_keeps_lookups(
    env: EnvironmentView,
    parent: usize,
    from: usize,
    name: Seq<char>,
)
    requires
        from < env.scopes.len(),
    ensures
        env.child(parent).lookup(from, name) == env.lookup(from, name),
    decreases from,
{
    match env.scopes[from as int].parent {
        Some(outer) => {
            if outer < from {
                lemma_child_keeps_lookups(env, parent, outer, name);
            }
        },
        None => {},
    }
}

/// A new scope sees what the scope around it sees.
pub proof fn lemma_child_sees_parent(env: EnvironmentView, parent: usize, name: Seq<char>)
    requires
        parent < env.scopes.len() <= usize::MAX,
    ensures
        env.child(parent).lookup(env.scopes.len() as usize, name) == env.lookup(parent, name),
{
    lemma_child_keeps_lookups(env, parent, parent, name);
}

} // verus!
