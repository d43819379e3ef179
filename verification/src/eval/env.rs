//! Lexical scopes.
//!
//! A scope maps names to values and may name an enclosing scope. Scopes live
//! side by side in one list and name their parent by its index in that list,
//! so that a scope can be shared by every function defined in it and by
//! every call of such a function. A parent always stands before its
//! children: a link that does not point backwards is not followed. A scope
//! also records whether a function was ever defined in it: only such a
//! scope can still be needed once the call that made it has returned.

use vstd::prelude::*;
use crate::eval::object::{object_views, Object, ObjectView};
use crate::ast::names_view;
use crate::text::str_eq;

verus! {

/// One scope: its own bindings, the index of the enclosing scope, and
/// whether a function was defined in it.
#[derive(Debug, PartialEq, Eq)]
pub struct Environment {
    store: Vec<(String, Object)>,
    parent: Option<usize>,
    captured: bool,
}

/// The mathematical value of an [`Environment`]: a map from names to
/// values, the index of the enclosing scope, and whether a function was
/// defined in the scope.
pub ghost struct EnvironmentView {
    pub store: Map<Seq<char>, ObjectView>,
    pub parent: Option<nat>,
    pub captured: bool,
}

/// The map that a list of bindings builds up: a later binding of a name
/// replaces an earlier one.
pub open spec fn bindings(entries: Seq<(String, Object)>) -> Map<Seq<char>, ObjectView>
    decreases entries.len(),
{
    if entries.len() == 0 {
        Map::empty()
    } else {
        bindings(entries.drop_last()).insert(entries.last().0@, entries.last().1@)
    }
}

/// The map `store` after the first `count` names of `keys` have been bound,
/// in order, to the values at the same positions in `values`.
pub open spec fn bind_all(
    store: Map<Seq<char>, ObjectView>,
    keys: Seq<Seq<char>>,
    values: Seq<ObjectView>,
    count: nat,
) -> Map<Seq<char>, ObjectView>
    decreases count,
{
    if count == 0 {
        store
    } else {
        bind_all(store, keys, values, (count - 1) as nat).insert(
            keys[count - 1],
            values[count - 1],
        )
    }
}

/// The lesser of two lengths.
pub open spec fn shorter(a: nat, b: nat) -> nat {
    if a <= b {
        a
    } else {
        b
    }
}

/// The value of `key` as seen from the scope at `index` of `scopes`: the
/// binding in that scope or, failing that, in the nearest enclosing scope
/// that has one.
pub open spec fn lookup(scopes: Seq<EnvironmentView>, index: nat, key: Seq<char>) -> Option<
    ObjectView,
>
    decreases index,
{
    if index >= scopes.len() {
        None
    } else if scopes[index as int].store.contains_key(key) {
        Some(scopes[index as int].store[key])
    } else {
        match scopes[index as int].parent {
            Some(parent) => if parent < index {
                lookup(scopes, parent, key)
            } else {
                None
            },
            None => None,
        }
    }
}

impl EnvironmentView {
    /// A scope with no bindings and no enclosing scope.
    pub open spec fn empty() -> EnvironmentView {
        EnvironmentView { store: Map::empty(), parent: None, captured: false }
    }

    /// A scope with no bindings, enclosed by the scope at index `parent`.
    pub open spec fn child_of(parent: nat) -> EnvironmentView {
        EnvironmentView { store: Map::empty(), parent: Some(parent), captured: false }
    }

    /// This scope with `key` bound to `value`.
    pub open spec fn set(self, key: Seq<char>, value: ObjectView) -> EnvironmentView {
        EnvironmentView {
            store: self.store.insert(key, value),
            parent: self.parent,
            captured: self.captured,
        }
    }

    /// This scope once a function has been defined in it.
    pub open spec fn capture(self) -> EnvironmentView {
        EnvironmentView { store: self.store, parent: self.parent, captured: true }
    }

    /// The value of `key` as seen from this scope, whose enclosing scopes
    /// stand in `scopes`.
    pub open spec fn get(self, key: Seq<char>, scopes: Seq<EnvironmentView>) -> Option<ObjectView> {
        if self.store.contains_key(key) {
            Some(self.store[key])
        } else {
            match self.parent {
                Some(parent) => lookup(scopes, parent, key),
                None => None,
            }
        }
    }

    /// This scope with its parameters bound: each name of `keys` to the
    /// value at the same position in `values`, as far as both reach.
    pub open spec fn with(self, keys: Seq<Seq<char>>, values: Seq<ObjectView>) -> EnvironmentView {
        EnvironmentView {
            store: bind_all(self.store, keys, values, shorter(keys.len(), values.len())),
            parent: self.parent,
            captured: self.captured,
        }
    }
}

/// The mathematical values of a list of scopes.
pub open spec fn scope_views(scopes: Seq<Environment>) -> Seq<EnvironmentView> {
    Seq::new(scopes.len(), |i: int| scopes[i]@)
}

/// The mathematical value of an optional value.
pub open spec fn found_view(found: Option<Object>) -> Option<ObjectView> {
    match found {
        Some(object) => Some(object@),
        None => None,
    }
}

impl View for Environment {
    type V = EnvironmentView;

    closed spec fn view(&self) -> EnvironmentView {
        EnvironmentView {
            store: bindings(self.store@),
            parent: match self.parent {
                Some(parent) => Some(parent as nat),
                None => None,
            },
            captured: self.captured,
        }
    }
}

impl Environment {
    /// A scope with no bindings and no enclosing scope.
    pub fn new() -> (env: Environment)
        ensures
            env@ == EnvironmentView::empty(),
    {
        Environment { store: Vec::new(), parent: None, captured: false }
    }

    /// A scope with no bindings, enclosed by the scope at index `parent`.
    pub fn child_of(parent: usize) -> (env: Environment)
        ensures
            env@ == EnvironmentView::child_of(parent as nat),
    {
        Environment { store: Vec::new(), parent: Some(parent), captured: false }
    }

    /// Binds each name of `keys` to the value at the same position in
    /// `values`, as far as both reach.
    pub fn with(self, keys: &Vec<String>, values: &Vec<Object>) -> (env: Environment)
        ensures
            env@ == self@.with(names_view(keys@), object_views(values@)),
    {
        let mut env = self;
        let mut i: usize = 0;
        let ghost names = names_view(keys@);
        let ghost objects = object_views(values@);
        while i < keys.len() && i < values.len()
            invariant
                i <= keys.len(),
                i <= values.len(),
                names == names_view(keys@),
                objects == object_views(values@),
                env@.parent == self@.parent,
                env@.captured == self@.captured,
                env@.store == bind_all(self@.store, names, objects, i as nat),
            decreases keys.len() - i,
        {
            env.set(keys[i].clone(), values[i].deep_clone());
            i += 1;
        }
        env
    }

    /// The value of `key` as seen from this scope, whose enclosing scopes
    /// stand in `scopes`: the binding in this scope or, failing that, in
    /// the nearest enclosing scope that has one.
    pub fn get(&self, key: &str, scopes: &Vec<Environment>) -> (found: Option<Object>)
        ensures
            found_view(found) == self@.get(key@, scope_views(scopes@)),
    {
        match self.get_local(key) {
            Some(object) => Some(object),
            None => self.check_parent(key, scopes),
        }
    }

    /// Binds `key` to `value` in this scope.
    pub fn set(&mut self, key: String, value: Object)
        ensures
            final(self)@ == old(self)@.set(key@, value@),
    {
        self.store.push((key, value));
        assert(self.store@.drop_last() =~= old(self).store@);
    }

    /// Records that a function has been defined in this scope.
    pub fn capture(&mut self)
        ensures
            final(self)@ == old(self)@.capture(),
    {
        self.captured = true;
    }

    /// Whether a function has been defined in this scope.
    pub fn is_captured(&self) -> (r: bool)
        ensures
            r == self@.captured,
    {
        self.captured
    }

    /// The binding of `key` in this scope itself.
    fn get_local(&self, key: &str) -> (found: Option<Object>)
        ensures
            found_view(found) == (if self@.store.contains_key(key@) {
                Some(self@.store[key@])
            } else {
                None
            }),
    {
        let mut i: usize = self.store.len();
        let ghost entries = self.store@;
        assert(entries.take(i as int) =~= entries);
        while i > 0
            invariant
                i <= self.store.len(),
                entries == self.store@,
                bindings(entries).contains_key(key@) == bindings(entries.take(i as int)).contains_key(
                    key@,
                ),
                bindings(entries).contains_key(key@) ==> bindings(entries)[key@] == bindings(
                    entries.take(i as int),
                )[key@],
            decreases i,
        {
            i -= 1;
            assert(entries.take(i + 1).drop_last() =~= entries.take(i as int));
            if str_eq(key, self.store[i].0.as_str()) {
                return Some(self.store[i].1.deep_clone());
            }
        }
        assert(entries.take(0) =~= Seq::<(String, Object)>::empty());
        None
    }

    /// The value of `key` as seen from the enclosing scope.
    fn check_parent(&self, key: &str, scopes: &Vec<Environment>) -> (found: Option<Object>)
        ensures
            found_view(found) == (match self@.parent {
                Some(parent) => lookup(scope_views(scopes@), parent, key@),
                None => None,
            }),
    {
        match self.parent {
            Some(parent) => lookup_in(scopes, parent, key),
            None => None,
        }
    }
}

/// The value of `key` as seen from the scope at `index` of `scopes`.
pub fn lookup_in(scopes: &Vec<Environment>, index: usize, key: &str) -> (found: Option<Object>)
    ensures
        found_view(found) == lookup(scope_views(scopes@), index as nat, key@),
{
    let mut at: usize = index;
    let ghost views = scope_views(scopes@);
    loop
        invariant
            views == scope_views(scopes@),
            lookup(views, at as nat, key@) == lookup(views, index as nat, key@),
        decreases at,
    {
        if at >= scopes.len() {
            return None;
        }
        match scopes[at].get_local(key) {
            Some(object) => {
                return Some(object);
            },
            None => {},
        }
        match scopes[at].parent {
            Some(parent) => {
                if parent < at {
                    at = parent;
                } else {
                    return None;
                }
            },
            None => {
                return None;
            },
        }
    }
}

} // verus!
