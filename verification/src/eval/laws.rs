//! What holds of every evaluation.
//!
//! The statements here are about the model alone; they hold of the
//! executable evaluator because it computes the model.

use vstd::prelude::*;
use crate::ast::{ExprView, StmtView};
use crate::eval::env::{bind_all, lookup, shorter, EnvironmentView};
use crate::eval::object::{lemma_unwrap_return_is_no_return, ObjectView};
use crate::eval::model::{
    bind, capture, enter, eval_arguments, eval_block, eval_expression, eval_program,
    eval_statement, leave, unbound_error, Outcome,
};

verus! {

/// A block that has stopped at a return value or an error has that value
/// whatever statements follow: none of them is run.
pub proof fn lemma_sentinel_ends_block(
    stmts: Seq<StmtView>,
    more: Seq<StmtView>,
    from: int,
    last: ObjectView,
    scopes: Seq<EnvironmentView>,
    current: nat,
    depth: nat,
)
    requires
        0 <= from <= stmts.len(),
        !last.is_sentinel(),
        eval_block(stmts, from, last, scopes, current, depth).value.is_sentinel(),
    ensures
        eval_block(stmts + more, from, last, scopes, current, depth) == eval_block(
            stmts,
            from,
            last,
            scopes,
            current,
            depth,
        ),
    decreases stmts.len() - from,
{
    if from < stmts.len() {
        assert((stmts + more)[from] == stmts[from]);
        let first = eval_statement(stmts[from], scopes, current, depth);
        if !first.value.is_sentinel() {
            lemma_sentinel_ends_block(stmts, more, from + 1, first.value, first.scopes, current, depth);
        }
    }
}

/// An error in a program is its result whatever statements follow the one
/// that failed.
pub proof fn lemma_error_is_final(
    stmts: Seq<StmtView>,
    more: Seq<StmtView>,
    scopes: Seq<EnvironmentView>,
    current: nat,
    depth: nat,
)
    requires
        eval_program(stmts, scopes, current, depth).value is Error,
    ensures
        eval_program(stmts + more, scopes, current, depth) == eval_program(
            stmts,
            scopes,
            current,
            depth,
        ),
{
    lemma_sentinel_ends_block(stmts, more, 0, ObjectView::Null, scopes, current, depth);
}

/// A name that no scope binds evaluates to an error that names it, and
/// leaves the scopes as they are.
pub proof fn lemma_unbound_identifier(
    name: Seq<char>,
    scopes: Seq<EnvironmentView>,
    current: nat,
    depth: nat,
)
    requires
        lookup(scopes, current, name) is None,
    ensures
        eval_expression(ExprView::Ident(name), scopes, current, depth) == (Outcome {
            value: unbound_error(name),
            scopes,
        }),
        eval_program(seq![StmtView::Expression(ExprView::Ident(name))], scopes, current, depth) == (
        Outcome { value: unbound_error(name), scopes }),
{
    let stmts = seq![StmtView::Expression(ExprView::Ident(name))];
    let first = eval_statement(stmts[0], scopes, current, depth);
    assert(first.value == unbound_error(name));
    assert(eval_block(stmts, 0, ObjectView::Null, scopes, current, depth) == first);
}

/// After a `let` whose expression gave a value that is no sentinel, the
/// name is bound to that value in the scope the `let` ran in, and the `let`
/// has that value.
pub proof fn lemma_let_binds(
    ident: Seq<char>,
    val: ExprView,
    scopes: Seq<EnvironmentView>,
    current: nat,
    depth: nat,
)
    requires
        current < scopes.len(),
        !eval_expression(val, scopes, current, depth).value.is_sentinel(),
    ensures
        ({
            let out = eval_statement(StmtView::Let { ident, val }, scopes, current, depth);
            &&& out.value == eval_expression(val, scopes, current, depth).value
            &&& lookup(out.scopes, current, ident) == Some(out.value)
        }),
{
    lemma_expression_is_local(val, scopes, current, depth);
}

/// A lookup from a scope sees only that scope and the scopes before it:
/// two lists of scopes that agree up to the scope give the same.
pub proof fn lemma_lookup_sees_earlier_scopes(
    first: Seq<EnvironmentView>,
    second: Seq<EnvironmentView>,
    index: nat,
    key: Seq<char>,
)
    requires
        index < first.len(),
        index < second.len(),
        forall|i: int| 0 <= i <= index ==> first[i] == second[i],
    ensures
        lookup(first, index, key) == lookup(second, index, key),
    decreases index,
{
    if !first[index as int].store.contains_key(key) {
        match first[index as int].parent {
            Some(parent) => {
                if parent < index {
                    lemma_lookup_sees_earlier_scopes(first, second, parent, key);
                }
            },
            None => {},
        }
    }
}

/// Which names the first `count` parameters bind.
pub proof fn lemma_bind_all_names(
    store: Map<Seq<char>, ObjectView>,
    keys: Seq<Seq<char>>,
    values: Seq<ObjectView>,
    count: nat,
    name: Seq<char>,
)
    requires
        count <= keys.len(),
    ensures
        bind_all(store, keys, values, count).contains_key(name) <==> store.contains_key(name) || (
        exists|i: int| 0 <= i < count && keys[i] == name),
        (forall|i: int| 0 <= i < count ==> keys[i] != name) && store.contains_key(name) ==> bind_all(
            store,
            keys,
            values,
            count,
        )[name] == store[name],
    decreases count,
{
    if count > 0 {
        lemma_bind_all_names(store, keys, values, (count - 1) as nat, name);
        if keys[count - 1] == name {
        } else if bind_all(store, keys, values, count).contains_key(name) && !store.contains_key(
            name,
        ) {
            let i = choose|i: int| 0 <= i < count - 1 && keys[i] == name;
            assert(0 <= i < count && keys[i] == name);
        }
    }
}

/// The value that the first `count` parameters bind to the name of the
/// parameter at `index`, where no later parameter of them has that name.
pub proof fn lemma_bind_all_value(
    store: Map<Seq<char>, ObjectView>,
    keys: Seq<Seq<char>>,
    values: Seq<ObjectView>,
    count: nat,
    index: int,
)
    requires
        0 <= index < count <= keys.len(),
        forall|j: int| index < j < count ==> keys[j] != keys[index],
    ensures
        bind_all(store, keys, values, count).contains_key(keys[index]),
        bind_all(store, keys, values, count)[keys[index]] == values[index],
    decreases count,
{
    if index < count - 1 {
        lemma_bind_all_value(store, keys, values, (count - 1) as nat, index);
    }
}

/// Lexical scope: inside a call, a name that is no parameter means what it
/// means in the scope in which the function was defined, wherever the call
/// is made and whether or not the call that made that scope has returned.
pub proof fn lemma_call_sees_defining_scope(
    scopes: Seq<EnvironmentView>,
    env: nat,
    params: Seq<Seq<char>>,
    values: Seq<ObjectView>,
    name: Seq<char>,
)
    requires
        env < scopes.len(),
        forall|i: int| 0 <= i < params.len() ==> params[i] != name,
    ensures
        lookup(enter(scopes, env, params, values), scopes.len(), name) == lookup(scopes, env, name),
{
    let entered = enter(scopes, env, params, values);
    lemma_bind_all_names(
        Map::empty(),
        params,
        values,
        shorter(params.len(), values.len()),
        name,
    );
    lemma_lookup_sees_earlier_scopes(entered, scopes, env, name);
}

/// Inside a call, a parameter means the argument at its position, if there
/// is one and no later parameter that has an argument bears the same name.
pub proof fn lemma_call_binds_parameter(
    scopes: Seq<EnvironmentView>,
    env: nat,
    params: Seq<Seq<char>>,
    values: Seq<ObjectView>,
    index: int,
)
    requires
        0 <= index < params.len(),
        index < values.len(),
        forall|j: int| index < j < params.len() && j < values.len() ==> params[j] != params[index],
    ensures
        lookup(enter(scopes, env, params, values), scopes.len(), params[index]) == Some(
            values[index],
        ),
{
    lemma_bind_all_value(
        Map::empty(),
        params,
        values,
        shorter(params.len(), values.len()),
        index,
    );
}

/// The scopes `after` are the scopes `before` with nothing changed but the
/// scope at `current`, which has kept its parent, every name it bound and
/// its mark, and with new scopes added at the end.
pub open spec fn extends_locally(
    before: Seq<EnvironmentView>,
    after: Seq<EnvironmentView>,
    current: nat,
) -> bool {
    &&& after.len() >= before.len()
    &&& forall|i: int| 0 <= i < before.len() && i != current ==> after[i] == before[i]
    &&& current < before.len() ==> {
        &&& after[current as int].parent == before[current as int].parent
        &&& before[current as int].store.dom().subset_of(after[current as int].store.dom())
        &&& before[current as int].captured ==> after[current as int].captured
    }
}

/// Running a block in a scope writes to that scope alone: every other
/// scope that was there before, each enclosing scope among them, is left
/// as it was, and none of them is dropped.
pub proof fn lemma_block_is_local(
    stmts: Seq<StmtView>,
    from: int,
    last: ObjectView,
    scopes: Seq<EnvironmentView>,
    current: nat,
    depth: nat,
)
    ensures
        extends_locally(
            scopes,
            eval_block(stmts, from, last, scopes, current, depth).scopes,
            current,
        ),
    decreases depth, stmts, stmts.len() - from,
{
    if 0 <= from < stmts.len() {
        lemma_statement_is_local(stmts[from], scopes, current, depth);
        let first = eval_statement(stmts[from], scopes, current, depth);
        if !first.value.is_sentinel() {
            lemma_block_is_local(stmts, from + 1, first.value, first.scopes, current, depth);
        }
    }
}

/// Running a statement in a scope writes to that scope alone.
pub proof fn lemma_statement_is_local(
    stmt: StmtView,
    scopes: Seq<EnvironmentView>,
    current: nat,
    depth: nat,
)
    ensures
        extends_locally(scopes, eval_statement(stmt, scopes, current, depth).scopes, current),
    decreases depth, stmt, 0nat,
{
    match stmt {
        StmtView::Let { ident, val } => {
            lemma_expression_is_local(val, scopes, current, depth);
        },
        StmtView::Return(val) => {
            lemma_expression_is_local(val, scopes, current, depth);
        },
        StmtView::Expression(val) => {
            lemma_expression_is_local(val, scopes, current, depth);
        },
    }
}

/// Evaluating the arguments of a call in a scope writes to that scope
/// alone.
pub proof fn lemma_arguments_are_local(
    args: Seq<ExprView>,
    from: int,
    seen: Seq<ObjectView>,
    scopes: Seq<EnvironmentView>,
    current: nat,
    depth: nat,
)
    ensures
        extends_locally(
            scopes,
            eval_arguments(args, from, seen, scopes, current, depth).scopes,
            current,
        ),
    decreases depth, args, args.len() - from,
{
    if 0 <= from < args.len() {
        lemma_expression_is_local(args[from], scopes, current, depth);
        let first = eval_expression(args[from], scopes, current, depth);
        if !first.value.is_sentinel() {
            lemma_arguments_are_local(
                args,
                from + 1,
                seen.push(first.value),
                first.scopes,
                current,
                depth,
            );
        }
    }
}

/// Evaluating an expression in a scope writes to that scope alone. A call
/// in it writes to the new scope of the call, and leaves every scope that
/// was there before as it was.
pub proof fn lemma_expression_is_local(
    expr: ExprView,
    scopes: Seq<EnvironmentView>,
    current: nat,
    depth: nat,
)
    ensures
        extends_locally(scopes, eval_expression(expr, scopes, current, depth).scopes, current),
    decreases depth, expr, 0nat,
{
    match expr {
        ExprView::IntLiteral(_) => {},
        ExprView::BooleanLiteral(_) => {},
        ExprView::Ident(_) => {},
        ExprView::FuncLiteral { .. } => {},
        ExprView::If { check, block, alt } => {
            lemma_expression_is_local(*check, scopes, current, depth);
            let condition = eval_expression(*check, scopes, current, depth);
            lemma_block_is_local(block, 0, ObjectView::Null, condition.scopes, current, depth);
            match alt {
                Some(stmts) => {
                    lemma_block_is_local(
                        stmts,
                        0,
                        ObjectView::Null,
                        condition.scopes,
                        current,
                        depth,
                    );
                },
                None => {},
            }
        },
        ExprView::Prefix(_, right) => {
            lemma_expression_is_local(*right, scopes, current, depth);
        },
        ExprView::Infix(left, _, right) => {
            lemma_expression_is_local(*left, scopes, current, depth);
            let first = eval_expression(*left, scopes, current, depth);
            lemma_expression_is_local(*right, first.scopes, current, depth);
        },
        ExprView::Call { func, args } => {
            lemma_expression_is_local(*func, scopes, current, depth);
            let callee = eval_expression(*func, scopes, current, depth);
            match callee.value {
                ObjectView::Func { params, body, env } => {
                    lemma_arguments_are_local(args, 0, Seq::empty(), callee.scopes, current, depth);
                    let arguments = eval_arguments(
                        args,
                        0,
                        Seq::empty(),
                        callee.scopes,
                        current,
                        depth,
                    );
                    match arguments.values {
                        Ok(values) => {
                            if depth > 0 {
                                lemma_call_is_local(
                                    body,
                                    arguments.scopes,
                                    env,
                                    params,
                                    values,
                                    (depth - 1) as nat,
                                );
                            }
                        },
                        Err(_) => {},
                    }
                },
                _ => {},
            }
        },
    }
}

/// A call does not write to any scope that was there before it, not even
/// to the scope it is made in: what its body binds, it binds in the new
/// scope of the call. After the call every earlier scope is as it was.
pub proof fn lemma_call_is_local(
    body: Seq<StmtView>,
    scopes: Seq<EnvironmentView>,
    env: nat,
    params: Seq<Seq<char>>,
    values: Seq<ObjectView>,
    depth: nat,
)
    ensures
        ({
            let entered = enter(scopes, env, params, values);
            let result = eval_block(body, 0, ObjectView::Null, entered, scopes.len(), depth);
            let after = leave(result.scopes, scopes.len());
            &&& after.len() >= scopes.len()
            &&& forall|i: int| 0 <= i < scopes.len() ==> after[i] == scopes[i]
        }),
    decreases depth, body, body.len() + 1,
{
    let entered = enter(scopes, env, params, values);
    lemma_block_is_local(body, 0, ObjectView::Null, entered, scopes.len(), depth);
}

/// Every function in `object` remembers a scope of `scopes` that is marked
/// as having had a function defined in it.
pub open spec fn object_fits(object: ObjectView, scopes: Seq<EnvironmentView>) -> bool
    decreases object,
{
    match object {
        ObjectView::Func { env, .. } => env < scopes.len() && scopes[env as int].captured,
        ObjectView::ReturnValue(value) => object_fits(*value, scopes),
        _ => true,
    }
}

/// Every one of `objects` fits among `scopes`.
pub open spec fn objects_fit(objects: Seq<ObjectView>, scopes: Seq<EnvironmentView>) -> bool {
    forall|i: int| 0 <= i < objects.len() ==> object_fits(#[trigger] objects[i], scopes)
}

/// Every value bound in `store` fits among `scopes`.
pub open spec fn store_fits(
    store: Map<Seq<char>, ObjectView>,
    scopes: Seq<EnvironmentView>,
) -> bool {
    forall|key: Seq<char>| #[trigger] store.contains_key(key) ==> object_fits(store[key], scopes)
}

/// The scope `scope`, which stands at `index` in `scopes`, is enclosed by
/// a scope before it or by none, and every function it binds fits.
pub open spec fn scope_fits(scope: EnvironmentView, index: nat, scopes: Seq<EnvironmentView>) -> bool {
    &&& match scope.parent {
        Some(parent) => parent < index,
        None => true,
    }
    &&& store_fits(scope.store, scopes)
}

/// The scopes hang together: every scope is enclosed by a scope before it
/// or by none, so that following the parents from any scope ends at a
/// root, and every function bound anywhere remembers a scope that exists
/// and is marked.
pub open spec fn scopes_fit(scopes: Seq<EnvironmentView>) -> bool {
    forall|i: int| 0 <= i < scopes.len() ==> scope_fits(#[trigger] scopes[i], i as nat, scopes)
}

/// No scope of `before` is missing in `after` or has lost its mark.
pub open spec fn keeps_marks(before: Seq<EnvironmentView>, after: Seq<EnvironmentView>) -> bool {
    &&& after.len() >= before.len()
    &&& forall|i: int| 0 <= i < before.len() && before[i].captured ==> after[i].captured
}

/// What fits among scopes fits among them later, when none is missing or
/// has lost its mark.
pub proof fn lemma_object_fits_later(
    object: ObjectView,
    before: Seq<EnvironmentView>,
    after: Seq<EnvironmentView>,
)
    requires
        object_fits(object, before),
        keeps_marks(before, after),
    ensures
        object_fits(object, after),
    decreases object,
{
    match object {
        ObjectView::ReturnValue(value) => {
            lemma_object_fits_later(*value, before, after);
        },
        _ => {},
    }
}

/// Values that fit among scopes fit among them later.
pub proof fn lemma_objects_fit_later(
    objects: Seq<ObjectView>,
    before: Seq<EnvironmentView>,
    after: Seq<EnvironmentView>,
)
    requires
        objects_fit(objects, before),
        keeps_marks(before, after),
    ensures
        objects_fit(objects, after),
{
    assert forall|i: int| 0 <= i < objects.len() implies object_fits(
        #[trigger] objects[i],
        after,
    ) by {
        lemma_object_fits_later(objects[i], before, after);
    }
}

/// A store whose values fit among scopes fits among them later.
pub proof fn lemma_store_fits_later(
    store: Map<Seq<char>, ObjectView>,
    before: Seq<EnvironmentView>,
    after: Seq<EnvironmentView>,
)
    requires
        store_fits(store, before),
        keeps_marks(before, after),
    ensures
        store_fits(store, after),
{
    assert forall|key: Seq<char>| #[trigger] store.contains_key(key) implies object_fits(
        store[key],
        after,
    ) by {
        lemma_object_fits_later(store[key], before, after);
    }
}

/// What fits among scopes whose last one is not marked does not refer to
/// that one, and fits among the others.
pub proof fn lemma_object_fits_without_last(object: ObjectView, scopes: Seq<EnvironmentView>)
    requires
        object_fits(object, scopes),
        scopes.len() > 0,
        !scopes.last().captured,
    ensures
        object_fits(object, scopes.drop_last()),
    decreases object,
{
    match object {
        ObjectView::ReturnValue(value) => {
            lemma_object_fits_without_last(*value, scopes);
        },
        _ => {},
    }
}

/// What was returned by a value that fits fits.
pub proof fn lemma_unwrap_return_fits(object: ObjectView, scopes: Seq<EnvironmentView>)
    requires
        object_fits(object, scopes),
    ensures
        object_fits(object.unwrap_return(), scopes),
    decreases object,
{
    match object {
        ObjectView::ReturnValue(value) => {
            lemma_unwrap_return_fits(*value, scopes);
        },
        _ => {},
    }
}

/// Scopes that hang together still do after `name` has been bound to a
/// value that fits.
pub proof fn lemma_bind_keeps_fit(
    scopes: Seq<EnvironmentView>,
    current: nat,
    name: Seq<char>,
    value: ObjectView,
)
    requires
        scopes_fit(scopes),
        object_fits(value, scopes),
    ensures
        scopes_fit(bind(scopes, current, name, value)),
        keeps_marks(scopes, bind(scopes, current, name, value)),
{
    let after = bind(scopes, current, name, value);
    assert(keeps_marks(scopes, after));
    lemma_object_fits_later(value, scopes, after);
    assert forall|i: int| 0 <= i < after.len() implies scope_fits(
        #[trigger] after[i],
        i as nat,
        after,
    ) by {
        assert(scope_fits(scopes[i], i as nat, scopes));
        lemma_store_fits_later(scopes[i].store, scopes, after);
    }
}

/// Scopes that hang together still do after one of them has been marked,
/// and a function that remembers the marked scope fits among them.
pub proof fn lemma_capture_keeps_fit(scopes: Seq<EnvironmentView>, current: nat)
    requires
        scopes_fit(scopes),
    ensures
        scopes_fit(capture(scopes, current)),
        keeps_marks(scopes, capture(scopes, current)),
        current < scopes.len() ==> capture(scopes, current)[current as int].captured,
{
    let after = capture(scopes, current);
    assert(keeps_marks(scopes, after));
    assert forall|i: int| 0 <= i < after.len() implies scope_fits(
        #[trigger] after[i],
        i as nat,
        after,
    ) by {
        assert(scope_fits(scopes[i], i as nat, scopes));
        lemma_store_fits_later(scopes[i].store, scopes, after);
    }
}

/// Scopes that hang together still do once a call of a function that fits
/// has been entered with arguments that fit.
pub proof fn lemma_enter_keeps_fit(
    scopes: Seq<EnvironmentView>,
    env: nat,
    params: Seq<Seq<char>>,
    values: Seq<ObjectView>,
)
    requires
        scopes_fit(scopes),
        env < scopes.len(),
        objects_fit(values, scopes),
    ensures
        scopes_fit(enter(scopes, env, params, values)),
        keeps_marks(scopes, enter(scopes, env, params, values)),
{
    let after = enter(scopes, env, params, values);
    assert(keeps_marks(scopes, after));
    lemma_objects_fit_later(values, scopes, after);
    lemma_bind_all_fits(
        Map::empty(),
        params,
        values,
        shorter(params.len(), values.len()),
        after,
    );
    assert forall|i: int| 0 <= i < after.len() implies scope_fits(
        #[trigger] after[i],
        i as nat,
        after,
    ) by {
        if i < scopes.len() {
            assert(scope_fits(scopes[i], i as nat, scopes));
            lemma_store_fits_later(scopes[i].store, scopes, after);
        }
    }
}

/// Scopes that hang together still do after a call has returned, whether
/// or not its scope was dropped, and what fitted before fits afterwards.
pub proof fn lemma_leave_keeps_fit(scopes: Seq<EnvironmentView>, index: nat, value: ObjectView)
    requires
        scopes_fit(scopes),
        object_fits(value, scopes),
    ensures
        scopes_fit(leave(scopes, index)),
        object_fits(value, leave(scopes, index)),
{
    let after = leave(scopes, index);
    if scopes.len() == index + 1 && !scopes[index as int].captured {
        lemma_object_fits_without_last(value, scopes);
        assert forall|i: int| 0 <= i < after.len() implies scope_fits(
            #[trigger] after[i],
            i as nat,
            after,
        ) by {
            assert(scope_fits(scopes[i], i as nat, scopes));
            assert forall|key: Seq<char>| #[trigger]
                after[i].store.contains_key(key) implies object_fits(after[i].store[key], after) by {
                lemma_object_fits_without_last(scopes[i].store[key], scopes);
            }
        }
    }
}

/// What a lookup finds among scopes that hang together fits among them.
pub proof fn lemma_lookup_fits(scopes: Seq<EnvironmentView>, index: nat, key: Seq<char>)
    requires
        scopes_fit(scopes),
    ensures
        match lookup(scopes, index, key) {
            Some(value) => object_fits(value, scopes),
            None => true,
        },
    decreases index,
{
    if index < scopes.len() {
        assert(scope_fits(scopes[index as int], index, scopes));
        if !scopes[index as int].store.contains_key(key) {
            match scopes[index as int].parent {
                Some(parent) => {
                    if parent < index {
                        lemma_lookup_fits(scopes, parent, key);
                    }
                },
                None => {},
            }
        }
    }
}

/// Binding parameters to values that fit gives a store whose values fit.
pub proof fn lemma_bind_all_fits(
    store: Map<Seq<char>, ObjectView>,
    keys: Seq<Seq<char>>,
    values: Seq<ObjectView>,
    bound: nat,
    scopes: Seq<EnvironmentView>,
)
    requires
        bound <= values.len(),
        store_fits(store, scopes),
        objects_fit(values, scopes),
    ensures
        store_fits(bind_all(store, keys, values, bound), scopes),
    decreases bound,
{
    if bound > 0 {
        let before = bind_all(store, keys, values, (bound - 1) as nat);
        let after = bind_all(store, keys, values, bound);
        lemma_bind_all_fits(store, keys, values, (bound - 1) as nat, scopes);
        assert(object_fits(values[bound - 1], scopes));
        assert(after == before.insert(keys[bound - 1], values[bound - 1]));
        assert forall|key: Seq<char>| #[trigger] after.contains_key(key) implies object_fits(
            after[key],
            scopes,
        ) by {
            if key != keys[bound - 1] {
                assert(before.contains_key(key));
            }
        }
    }
}

/// Scopes that are extended locally keep their marks.
pub proof fn lemma_local_keeps_marks(
    before: Seq<EnvironmentView>,
    after: Seq<EnvironmentView>,
    current: nat,
)
    requires
        extends_locally(before, after, current),
    ensures
        keeps_marks(before, after),
{
}

/// Scopes that hang together still do after a block has run in one of
/// them, and the value of the block fits among them.
pub proof fn lemma_block_keeps_fit(
    stmts: Seq<StmtView>,
    from: int,
    last: ObjectView,
    scopes: Seq<EnvironmentView>,
    current: nat,
    depth: nat,
)
    requires
        scopes_fit(scopes),
        current < scopes.len(),
        object_fits(last, scopes),
    ensures
        scopes_fit(eval_block(stmts, from, last, scopes, current, depth).scopes),
        object_fits(
            eval_block(stmts, from, last, scopes, current, depth).value,
            eval_block(stmts, from, last, scopes, current, depth).scopes,
        ),
    decreases depth, stmts, stmts.len() - from,
{
    if 0 <= from < stmts.len() {
        lemma_statement_keeps_fit(stmts[from], scopes, current, depth);
        lemma_statement_is_local(stmts[from], scopes, current, depth);
        let first = eval_statement(stmts[from], scopes, current, depth);
        if !first.value.is_sentinel() {
            lemma_block_keeps_fit(stmts, from + 1, first.value, first.scopes, current, depth);
        }
    }
}

/// Scopes that hang together still do after a statement has run in one of
/// them, and the value of the statement fits among them.
pub proof fn lemma_statement_keeps_fit(
    stmt: StmtView,
    scopes: Seq<EnvironmentView>,
    current: nat,
    depth: nat,
)
    requires
        scopes_fit(scopes),
        current < scopes.len(),
    ensures
        scopes_fit(eval_statement(stmt, scopes, current, depth).scopes),
        object_fits(
            eval_statement(stmt, scopes, current, depth).value,
            eval_statement(stmt, scopes, current, depth).scopes,
        ),
    decreases depth, stmt, 0nat,
{
    match stmt {
        StmtView::Let { ident, val } => {
            lemma_expression_keeps_fit(val, scopes, current, depth);
            let body = eval_expression(val, scopes, current, depth);
            if !body.value.is_sentinel() {
                lemma_bind_keeps_fit(body.scopes, current, ident, body.value);
                lemma_object_fits_later(
                    body.value,
                    body.scopes,
                    bind(body.scopes, current, ident, body.value),
                );
            }
        },
        StmtView::Return(val) => {
            lemma_expression_keeps_fit(val, scopes, current, depth);
        },
        StmtView::Expression(val) => {
            lemma_expression_keeps_fit(val, scopes, current, depth);
        },
    }
}

/// Scopes that hang together still do after the arguments of a call have
/// been evaluated in one of them, and the values of the arguments, or the
/// sentinel that one of them gave, fit among them.
pub proof fn lemma_arguments_keep_fit(
    args: Seq<ExprView>,
    from: int,
    seen: Seq<ObjectView>,
    scopes: Seq<EnvironmentView>,
    current: nat,
    depth: nat,
)
    requires
        scopes_fit(scopes),
        current < scopes.len(),
        objects_fit(seen, scopes),
    ensures
        scopes_fit(eval_arguments(args, from, seen, scopes, current, depth).scopes),
        match eval_arguments(args, from, seen, scopes, current, depth).values {
            Ok(values) => objects_fit(
                values,
                eval_arguments(args, from, seen, scopes, current, depth).scopes,
            ),
            Err(sentinel) => object_fits(
                sentinel,
                eval_arguments(args, from, seen, scopes, current, depth).scopes,
            ),
        },
    decreases depth, args, args.len() - from,
{
    if 0 <= from < args.len() {
        lemma_expression_keeps_fit(args[from], scopes, current, depth);
        lemma_expression_is_local(args[from], scopes, current, depth);
        let first = eval_expression(args[from], scopes, current, depth);
        if !first.value.is_sentinel() {
            lemma_objects_fit_later(seen, scopes, first.scopes);
            lemma_arguments_keep_fit(
                args,
                from + 1,
                seen.push(first.value),
                first.scopes,
                current,
                depth,
            );
        }
    }
}

/// Scopes that hang together still do after an expression has been
/// evaluated in one of them, and its value fits among them: a function
/// remembers a scope that exists and is marked, and the scope of a call
/// is enclosed by a scope before it.
pub proof fn lemma_expression_keeps_fit(
    expr: ExprView,
    scopes: Seq<EnvironmentView>,
    current: nat,
    depth: nat,
)
    requires
        scopes_fit(scopes),
        current < scopes.len(),
    ensures
        scopes_fit(eval_expression(expr, scopes, current, depth).scopes),
        object_fits(
            eval_expression(expr, scopes, current, depth).value,
            eval_expression(expr, scopes, current, depth).scopes,
        ),
    decreases depth, expr, 0nat,
{
    match expr {
        ExprView::IntLiteral(_) => {},
        ExprView::BooleanLiteral(_) => {},
        ExprView::Ident(name) => {
            lemma_lookup_fits(scopes, current, name);
        },
        ExprView::FuncLiteral { .. } => {
            lemma_capture_keeps_fit(scopes, current);
        },
        ExprView::If { check, block, alt } => {
            lemma_expression_keeps_fit(*check, scopes, current, depth);
            lemma_expression_is_local(*check, scopes, current, depth);
            let condition = eval_expression(*check, scopes, current, depth);
            lemma_block_keeps_fit(block, 0, ObjectView::Null, condition.scopes, current, depth);
            match alt {
                Some(stmts) => {
                    lemma_block_keeps_fit(
                        stmts,
                        0,
                        ObjectView::Null,
                        condition.scopes,
                        current,
                        depth,
                    );
                },
                None => {},
            }
        },
        ExprView::Prefix(_, right) => {
            lemma_expression_keeps_fit(*right, scopes, current, depth);
        },
        ExprView::Infix(left, _, right) => {
            lemma_expression_keeps_fit(*left, scopes, current, depth);
            lemma_expression_is_local(*left, scopes, current, depth);
            let first = eval_expression(*left, scopes, current, depth);
            lemma_expression_keeps_fit(*right, first.scopes, current, depth);
        },
        ExprView::Call { func, args } => {
            lemma_expression_keeps_fit(*func, scopes, current, depth);
            lemma_expression_is_local(*func, scopes, current, depth);
            let callee = eval_expression(*func, scopes, current, depth);
            match callee.value {
                ObjectView::Func { params, body, env } => {
                    lemma_arguments_keep_fit(args, 0, Seq::empty(), callee.scopes, current, depth);
                    lemma_arguments_are_local(args, 0, Seq::empty(), callee.scopes, current, depth);
                    let arguments = eval_arguments(
                        args,
                        0,
                        Seq::empty(),
                        callee.scopes,
                        current,
                        depth,
                    );
                    match arguments.values {
                        Ok(values) => {
                            if depth > 0 {
                                let entered = enter(arguments.scopes, env, params, values);
                                let index = (entered.len() - 1) as nat;
                                lemma_enter_keeps_fit(arguments.scopes, env, params, values);
                                lemma_block_keeps_fit(
                                    body,
                                    0,
                                    ObjectView::Null,
                                    entered,
                                    index,
                                    (depth - 1) as nat,
                                );
                                let result = eval_block(
                                    body,
                                    0,
                                    ObjectView::Null,
                                    entered,
                                    index,
                                    (depth - 1) as nat,
                                );
                                lemma_unwrap_return_fits(result.value, result.scopes);
                                lemma_leave_keeps_fit(
                                    result.scopes,
                                    index,
                                    result.value.unwrap_return(),
                                );
                            }
                        },
                        Err(_) => {},
                    }
                },
                _ => {},
            }
        },
    }
}

/// Scopes that hang together still do after a program has run in one of
/// them, and its value fits among them.
pub proof fn lemma_program_keeps_fit(
    stmts: Seq<StmtView>,
    scopes: Seq<EnvironmentView>,
    current: nat,
    depth: nat,
)
    requires
        scopes_fit(scopes),
        current < scopes.len(),
    ensures
        scopes_fit(eval_program(stmts, scopes, current, depth).scopes),
        object_fits(
            eval_program(stmts, scopes, current, depth).value,
            eval_program(stmts, scopes, current, depth).scopes,
        ),
        eval_program(stmts, scopes, current, depth).scopes.len() >= scopes.len(),
{
    lemma_block_keeps_fit(stmts, 0, ObjectView::Null, scopes, current, depth);
    lemma_block_is_local(stmts, 0, ObjectView::Null, scopes, current, depth);
    let result = eval_block(stmts, 0, ObjectView::Null, scopes, current, depth);
    lemma_unwrap_return_fits(result.value, result.scopes);
}

/// A return value is never seen outside evaluation: the value of a program
/// is none, however deep the `return`s in it are nested.
pub proof fn lemma_no_return_value_escapes(
    stmts: Seq<StmtView>,
    scopes: Seq<EnvironmentView>,
    current: nat,
    depth: nat,
)
    ensures
        !(eval_program(stmts, scopes, current, depth).value is ReturnValue),
{
    lemma_unwrap_return_is_no_return(
        eval_block(stmts, 0, ObjectView::Null, scopes, current, depth).value,
    );
}

/// A return ends the call it is made in and no more: the value of a call
/// whose arguments all have a value is no return value, whatever its body
/// returned.
pub proof fn lemma_return_ends_at_the_call(
    func: ExprView,
    args: Seq<ExprView>,
    scopes: Seq<EnvironmentView>,
    current: nat,
    depth: nat,
)
    requires
        eval_arguments(
            args,
            0,
            Seq::empty(),
            eval_expression(func, scopes, current, depth).scopes,
            current,
            depth,
        ).values is Ok,
    ensures
        !(eval_expression(
            ExprView::Call { func: Box::new(func), args },
            scopes,
            current,
            depth,
        ).value is ReturnValue),
{
    let callee = eval_expression(func, scopes, current, depth);
    match callee.value {
        ObjectView::Func { params, body, env } => {
            let arguments = eval_arguments(args, 0, Seq::empty(), callee.scopes, current, depth);
            if depth > 0 {
                let entered = enter(arguments.scopes, env, params, arguments.values->Ok_0);
                lemma_unwrap_return_is_no_return(
                    eval_block(
                        body,
                        0,
                        ObjectView::Null,
                        entered,
                        (entered.len() - 1) as nat,
                        (depth - 1) as nat,
                    ).value,
                );
            }
        },
        _ => {},
    }
}

} // verus!
