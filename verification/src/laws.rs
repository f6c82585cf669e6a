//! What holds of resolution, whatever the program.
//!
//! The theorems of this module are stated over the same models as the
//! contracts of the passes: the index of a program, the levels of a scope and
//! the views of the tree.
use vstd::prelude::*;
use crate::analyse::def::class::{
    class_handle, class_scope, methods_diagnostics, resolved_class,
};
use crate::analyse::def::method::{method_diagnostics, method_scope, resolved_method};
use crate::analyse::def::{
    lemma_scope_after_params_frame, params_diagnostics, resolved_params, scope_after_params,
};
use crate::analyse::expr::{
    expr_diagnostics, exprs_diagnostics, invoker_diagnostics, lemma_scope_after_expr_frame,
    lemma_scope_after_exprs_frame, resolved_expr, resolved_exprs, scope_after_expr,
    scope_after_exprs, scope_after_invoker,
};
use crate::analyse::scope::{bind, lookup, method_of, Levels};
use crate::analyse::{
    item_diagnostics, items_diagnostics, resolved_item, resolved_unit, unit_diagnostics,
};
use crate::diagnostic::DiagnosticView;
use crate::index::{
    class_in, defines, distinct_names, first_collision, in_program, item_at, method_in, name_at,
    precedes, program_index,
};
use crate::tree::{
    AssignmentView, ClassView, Def, DefId, ExprView, InvokeView, ItemView, MethodView, ParamView,
    TypeView, VarView,
};

verus! {

/// An assignment in `expr` declares a variable named `name`.
pub open spec fn declares(expr: ExprView, name: Seq<char>) -> bool
    decreases expr,
{
    match expr {
        ExprView::Invoke(invoke) => invoker_declares(invoke.invoker_opt, name) || any_declares(
            invoke.args,
            name,
        ),
        ExprView::Assignment(assignment) => assignment.var.name.fragment == name || declares(
            assignment.expr,
            name,
        ),
        _ => false,
    }
}

/// An assignment in the receiver of a call declares a variable named `name`.
pub open spec fn invoker_declares(invoker: Option<ExprView>, name: Seq<char>) -> bool
    decreases invoker,
{
    match invoker {
        Some(invoker) => declares(invoker, name),
        None => false,
    }
}

/// An assignment in one of `exprs` declares a variable named `name`.
pub open spec fn any_declares(exprs: Seq<ExprView>, name: Seq<char>) -> bool
    decreases exprs,
{
    if exprs.len() == 0 {
        false
    } else {
        any_declares(exprs.drop_last(), name) || declares(exprs.last(), name)
    }
}

/// One of the parameters is named `name`.
pub open spec fn has_param(params: Seq<ParamView>, name: Seq<char>) -> bool {
    exists|i: int| 0 <= i < params.len() && #[trigger] params[i].name.fragment == name
}

/// `name` denotes a parameter or a local variable in `scope`.
pub open spec fn is_local(scope: Levels, name: Seq<char>) -> bool {
    lookup(scope, name) matches Some(Def::Local(_))
}

/// After a binding, the bound name denotes what it was bound to and every
/// other name denotes what it did before.
pub proof fn lemma_lookup_bind(scope: Levels, bound: Seq<char>, def: Def, name: Seq<char>)
    requires
        scope.len() > 0,
    ensures
        lookup(bind(scope, bound, def), name) == (if name == bound {
            Some(def)
        } else {
            lookup(scope, name)
        }),
{
    assert(bind(scope, bound, def).drop_last() =~= scope.drop_last());
}

/// A name that no level but the outermost could bind denotes what the index
/// says of it.
pub proof fn lemma_lookup_through_empty(index: Map<Seq<char>, Def>, name: Seq<char>)
    ensures
        lookup(seq![index].push(Map::empty()), name) == lookup(seq![index], name),
        lookup(seq![index], name) == (if index.contains_key(name) {
            Some(index[name])
        } else {
            None
        }),
{
    let inner = seq![index].push(Map::empty());
    assert(inner.drop_last() =~= seq![index]);
    assert(seq![index].drop_last() =~= Seq::<Map<Seq<char>, Def>>::empty());
    assert(seq![index].last() == index);
    assert(lookup(seq![index].drop_last(), name) is None);
}

/// What a name denotes once parameters are declared: a local if one of them
/// has the name, and what it denoted before if none has.
pub proof fn lemma_lookup_after_params(params: Seq<ParamView>, scope: Levels, name: Seq<char>)
    requires
        scope.len() > 0,
    ensures
        has_param(params, name) ==> is_local(scope_after_params(params, scope), name),
        !has_param(params, name) ==> lookup(scope_after_params(params, scope), name) == lookup(
            scope,
            name,
        ),
    decreases params.len(),
{
    if params.len() > 0 {
        let before = params.drop_last();
        lemma_lookup_after_params(before, scope, name);
        lemma_scope_after_params_frame(before, scope);
        lemma_lookup_bind(
            scope_after_params(before, scope),
            params.last().name.fragment,
            Def::Local(params.last().name.location()),
            name,
        );
        if has_param(params, name) {
            let i = choose|i: int| 0 <= i < params.len() && #[trigger] params[i].name.fragment == name;
            if i < params.len() - 1 {
                assert(before[i].name.fragment == name);
            }
        } else {
            if has_param(before, name) {
                let i = choose|i: int|
                    0 <= i < before.len() && #[trigger] before[i].name.fragment == name;
                assert(params[i].name.fragment == name);
            }
            assert(params[params.len() - 1].name.fragment != name);
        }
    }
}

/// What a name denotes once an expression is resolved: a local if the
/// expression declares the name, and what it denoted before if not.
pub proof fn lemma_lookup_after_expr(expr: ExprView, scope: Levels, name: Seq<char>)
    requires
        scope.len() > 0,
    ensures
        declares(expr, name) ==> is_local(scope_after_expr(expr, scope), name),
        !declares(expr, name) ==> lookup(scope_after_expr(expr, scope), name) == lookup(
            scope,
            name,
        ),
    decreases expr,
{
    match expr {
        ExprView::Invoke(invoke) => {
            let inner = scope_after_invoker(invoke.invoker_opt, scope);
            match invoke.invoker_opt {
                Some(invoker) => {
                    lemma_lookup_after_expr(invoker, scope, name);
                    lemma_scope_after_expr_frame(invoker, scope);
                    assert(inner == scope_after_expr(invoker, scope));
                    assert(invoker_declares(invoke.invoker_opt, name) == declares(invoker, name));
                },
                None => {
                    assert(inner == scope);
                    assert(!invoker_declares(invoke.invoker_opt, name));
                },
            }
            lemma_lookup_after_exprs(invoke.args, inner, name);
            assert(scope_after_expr(expr, scope) == scope_after_exprs(invoke.args, inner));
            assert(declares(expr, name) == (invoker_declares(invoke.invoker_opt, name)
                || any_declares(invoke.args, name)));
        },
        ExprView::Assignment(assignment) => {
            lemma_lookup_after_expr(assignment.expr, scope, name);
            lemma_scope_after_expr_frame(assignment.expr, scope);
            lemma_lookup_bind(
                scope_after_expr(assignment.expr, scope),
                assignment.var.name.fragment,
                Def::Local(assignment.var.name.location()),
                name,
            );
        },
        _ => {},
    }
}

/// What a name denotes once a sequence of expressions is resolved: a local if
/// one of them declares the name, and what it denoted before if none does.
pub proof fn lemma_lookup_after_exprs(exprs: Seq<ExprView>, scope: Levels, name: Seq<char>)
    requires
        scope.len() > 0,
    ensures
        any_declares(exprs, name) ==> is_local(scope_after_exprs(exprs, scope), name),
        !any_declares(exprs, name) ==> lookup(scope_after_exprs(exprs, scope), name) == lookup(
            scope,
            name,
        ),
    decreases exprs,
{
    if exprs.len() > 0 {
        lemma_lookup_after_exprs(exprs.drop_last(), scope, name);
        lemma_scope_after_exprs_frame(exprs.drop_last(), scope);
        lemma_lookup_after_expr(exprs.last(), scope_after_exprs(exprs.drop_last(), scope), name);
    }
}

/// Resolving one sequence of expressions after another is resolving the two
/// in a row.
pub proof fn lemma_scope_after_exprs_concat(
    first: Seq<ExprView>,
    second: Seq<ExprView>,
    scope: Levels,
)
    ensures
        scope_after_exprs(first + second, scope) == scope_after_exprs(
            second,
            scope_after_exprs(first, scope),
        ),
    decreases second.len(),
{
    if second.len() == 0 {
        assert(first + second =~= first);
    } else {
        lemma_scope_after_exprs_concat(first, second.drop_last(), scope);
        assert((first + second).drop_last() =~= first + second.drop_last());
        assert((first + second).last() == second.last());
    }
}

/// An expression that declares a name makes every sequence that holds it
/// declare the name.
pub proof fn lemma_any_declares(exprs: Seq<ExprView>, i: int, name: Seq<char>)
    requires
        0 <= i < exprs.len(),
        declares(exprs[i], name),
    ensures
        any_declares(exprs, name),
    decreases exprs.len(),
{
    if i < exprs.len() - 1 {
        lemma_any_declares(exprs.drop_last(), i, name);
    }
}

/// Scope of a local, forwards. A variable that an assignment of a body
/// declares is bound in every later expression of the body: a use of its name
/// as a later statement is linked to a local. Where no expression between the
/// two declares the name again, it is linked to the local of that assignment.
pub proof fn law_local_visible_after(
    exprs: Seq<ExprView>,
    scope: Levels,
    i: int,
    j: int,
)
    requires
        scope.len() > 0,
        0 <= i < j < exprs.len(),
        exprs[i] is Assignment,
        exprs[j] is Var,
        exprs[j]->Var_0.name.fragment == exprs[i]->Assignment_0.var.name.fragment,
    ensures
        resolved_exprs(exprs, scope)[j] matches ExprView::Var(var) && var.name
            == exprs[j]->Var_0.name && (var.def matches Some(Def::Local(_))),
        !any_declares(exprs.subrange(i + 1, j), exprs[j]->Var_0.name.fragment) ==> resolved_exprs(
            exprs,
            scope,
        )[j] == ExprView::Var(
            VarView {
                name: exprs[j]->Var_0.name,
                def: Some(Def::Local(exprs[i]->Assignment_0.var.name.location())),
            },
        ),
{
    let name = exprs[j]->Var_0.name.fragment;
    let assignment = exprs[i]->Assignment_0;
    assert(exprs.take(j)[i] == exprs[i]);
    lemma_any_declares(exprs.take(j), i, name);
    lemma_lookup_after_exprs(exprs.take(j), scope, name);
    if !any_declares(exprs.subrange(i + 1, j), name) {
        let upto = exprs.take(i + 1);
        let between = exprs.subrange(i + 1, j);
        assert(upto + between =~= exprs.take(j));
        lemma_scope_after_exprs_concat(upto, between, scope);
        let declared = scope_after_exprs(upto, scope);
        lemma_scope_after_exprs_frame(upto, scope);
        lemma_lookup_after_exprs(between, declared, name);
        assert(upto.drop_last() =~= exprs.take(i));
        assert(upto.last() == exprs[i]);
        let before = scope_after_exprs(exprs.take(i), scope);
        lemma_scope_after_exprs_frame(exprs.take(i), scope);
        lemma_scope_after_expr_frame(assignment.expr, before);
        lemma_lookup_bind(
            scope_after_expr(assignment.expr, before),
            name,
            Def::Local(assignment.var.name.location()),
            name,
        );
        assert(declared == scope_after_expr(exprs[i], before));
        assert(declared == bind(
            scope_after_expr(assignment.expr, before),
            name,
            Def::Local(assignment.var.name.location()),
        ));
        assert(lookup(scope_after_exprs(exprs.take(j), scope), name) == Some(
            Def::Local(assignment.var.name.location()),
        ));
    }
}

/// Scope of a local, backwards. Nothing is bound before it is declared: where
/// a name denotes nothing in the scope in which a body is resolved and no
/// expression before the statement `j` declares it, a use of the name as
/// statement `j` is left without a link and reported, whatever the later
/// expressions of the body declare.
pub proof fn law_local_invisible_before(exprs: Seq<ExprView>, scope: Levels, j: int)
    requires
        scope.len() > 0,
        0 <= j < exprs.len(),
        exprs[j] is Var,
        lookup(scope, exprs[j]->Var_0.name.fragment) is None,
        !any_declares(exprs.take(j), exprs[j]->Var_0.name.fragment),
    ensures
        resolved_exprs(exprs, scope)[j] == ExprView::Var(
            VarView { name: exprs[j]->Var_0.name, def: None },
        ),
        expr_diagnostics(exprs[j], scope_after_exprs(exprs.take(j), scope)) == seq![
            DiagnosticView::UnresolvedVariable {
                name: exprs[j]->Var_0.name.fragment,
                location: exprs[j]->Var_0.name.location(),
            },
        ],
{
    lemma_lookup_after_exprs(exprs.take(j), scope, exprs[j]->Var_0.name.fragment);
}

/// No hoisting. How a statement of a body is resolved depends on the scope
/// and on the statements before it alone: two bodies that agree up to and
/// with a statement resolve it alike.
pub proof fn law_resolution_follows_source_order(
    exprs: Seq<ExprView>,
    other: Seq<ExprView>,
    scope: Levels,
    j: int,
)
    requires
        0 <= j < exprs.len(),
        j < other.len(),
        exprs.take(j + 1) == other.take(j + 1),
    ensures
        resolved_exprs(exprs, scope)[j] == resolved_exprs(other, scope)[j],
{
    assert(exprs.take(j + 1)[j] == exprs[j]);
    assert(other.take(j + 1)[j] == other[j]);
    assert(exprs.take(j) =~= exprs.take(j + 1).take(j));
    assert(other.take(j) =~= other.take(j + 1).take(j));
}

/// Locals end with their method. Each item of a unit is resolved against the
/// index alone: two units that have the same item at a place resolve it
/// alike, whatever their other items declare.
pub proof fn law_items_resolve_independently(
    unit: Seq<ItemView>,
    other: Seq<ItemView>,
    index: Map<Seq<char>, Def>,
    k: int,
)
    requires
        0 <= k < unit.len(),
        k < other.len(),
        unit[k] == other[k],
    ensures
        resolved_unit(unit, index)[k] == resolved_unit(other, index)[k],
        resolved_unit(unit, index)[k] == resolved_item(unit[k], seq![index]),
{
}

/// Locals end with their method. A name that is neither defined in the
/// program nor a parameter of a method nor declared earlier in its body
/// denotes nothing in that body, whatever the other methods of the unit
/// declare: its use as a statement of the body is left without a link.
pub proof fn law_sibling_locals_invisible(
    unit: Seq<ItemView>,
    index: Map<Seq<char>, Def>,
    k: int,
    j: int,
)
    requires
        0 <= k < unit.len(),
        unit[k] is Method,
        0 <= j < unit[k]->Method_0.exprs.len(),
        unit[k]->Method_0.exprs[j] is Var,
        !index.contains_key(unit[k]->Method_0.exprs[j]->Var_0.name.fragment),
        !has_param(unit[k]->Method_0.params, unit[k]->Method_0.exprs[j]->Var_0.name.fragment),
        !any_declares(
            unit[k]->Method_0.exprs.take(j),
            unit[k]->Method_0.exprs[j]->Var_0.name.fragment,
        ),
    ensures
        resolved_unit(unit, index)[k] is Method,
        resolved_unit(unit, index)[k]->Method_0.exprs[j] == ExprView::Var(
            VarView { name: unit[k]->Method_0.exprs[j]->Var_0.name, def: None },
        ),
{
    let method = unit[k]->Method_0;
    let name = method.exprs[j]->Var_0.name.fragment;
    let outer = seq![index];
    lemma_lookup_through_empty(index, name);
    lemma_lookup_after_params(method.params, outer.push(Map::empty()), name);
    lemma_scope_after_params_frame(method.params, outer.push(Map::empty()));
    law_local_invisible_before(method.exprs, method_scope(method, outer), j);
}

/// Two definitions of one name make the names of a program ambiguous: no
/// index is built for such a program.
pub proof fn law_shared_name_is_ambiguous(program: Seq<Seq<ItemView>>, a: DefId, b: DefId)
    requires
        in_program(program, a),
        in_program(program, b),
        a != b,
        name_at(program, a) == name_at(program, b),
    ensures
        !distinct_names(program),
{
}

/// A program has at most one first collision: the report of a duplicate
/// definition is determined by the program.
pub proof fn law_first_collision_is_unique(
    program: Seq<Seq<ItemView>>,
    first: DefId,
    second: DefId,
    other_first: DefId,
    other_second: DefId,
)
    requires
        first_collision(program, first, second),
        first_collision(program, other_first, other_second),
    ensures
        first == other_first,
        second == other_second,
{
    if precedes(second, other_second) {
        assert(in_program(program, first) && in_program(program, second));
    }
    if precedes(other_second, second) {
        assert(in_program(program, other_first) && in_program(program, other_second));
    }
    assert(second == other_second);
    if precedes(first, other_first) {
        assert(in_program(program, first) && in_program(program, other_first));
    }
    if precedes(other_first, first) {
        assert(in_program(program, other_first) && in_program(program, first));
    }
}

/// Where the names of a program are distinct, its index binds the name of
/// every item to that item, wherever the item stands.
pub proof fn law_index_binds_every_definition(program: Seq<Seq<ItemView>>, id: DefId)
    requires
        distinct_names(program),
        in_program(program, id),
    ensures
        program_index(program).contains_key(name_at(program, id)),
        program_index(program)[name_at(program, id)] == item_at(program, id).def(id),
{
    let name = name_at(program, id);
    assert(defines(program, id, name));
    let chosen = choose|chosen: DefId| defines(program, chosen, name);
    assert(in_program(program, chosen) && in_program(program, id));
}

/// Forward reference. A call that stands as a statement of a free method is
/// linked to the method of the program that has its name, wherever that
/// method is defined: before the caller or after it, in the same unit or in
/// another. This holds where nothing local has the name: no parameter of the
/// caller, no variable declared before the call or in its receiver.
pub proof fn law_forward_reference(
    program: Seq<Seq<ItemView>>,
    caller: DefId,
    k: int,
    target: DefId,
)
    requires
        distinct_names(program),
        in_program(program, caller),
        item_at(program, caller) is Method,
        0 <= k < item_at(program, caller)->Method_0.exprs.len(),
        item_at(program, caller)->Method_0.exprs[k] is Invoke,
        in_program(program, target),
        item_at(program, target) is Method,
        name_at(program, target) == item_at(
            program,
            caller,
        )->Method_0.exprs[k]->Invoke_0.name.fragment,
        !has_param(item_at(program, caller)->Method_0.params, name_at(program, target)),
        !any_declares(
            item_at(program, caller)->Method_0.exprs.take(k),
            name_at(program, target),
        ),
        !invoker_declares(
            item_at(program, caller)->Method_0.exprs[k]->Invoke_0.invoker_opt,
            name_at(program, target),
        ),
    ensures
        method_in(program_index(program), name_at(program, target)) == Some(target),
        resolved_unit(program[caller.unit as int], program_index(program))[caller.item as int]
            is Method,
        resolved_unit(
            program[caller.unit as int],
            program_index(program),
        )[caller.item as int]->Method_0.exprs[k] is Invoke,
        resolved_unit(
            program[caller.unit as int],
            program_index(program),
        )[caller.item as int]->Method_0.exprs[k]->Invoke_0.method_def == Some(target),
{
    let index = program_index(program);
    let method = item_at(program, caller)->Method_0;
    let name = name_at(program, target);
    let call = method.exprs[k]->Invoke_0;
    let outer = seq![index];
    law_index_binds_every_definition(program, target);
    lemma_lookup_through_empty(index, name);
    lemma_lookup_after_params(method.params, outer.push(Map::empty()), name);
    lemma_scope_after_params_frame(method.params, outer.push(Map::empty()));
    let entry = method_scope(method, outer);
    lemma_lookup_after_exprs(method.exprs.take(k), entry, name);
    lemma_scope_after_exprs_frame(method.exprs.take(k), entry);
    let at_call = scope_after_exprs(method.exprs.take(k), entry);
    match call.invoker_opt {
        Some(invoker) => {
            lemma_lookup_after_expr(invoker, at_call, name);
            assert(invoker_declares(call.invoker_opt, name) == declares(invoker, name));
            assert(scope_after_invoker(call.invoker_opt, at_call) == scope_after_expr(
                invoker,
                at_call,
            ));
        },
        None => {
            assert(scope_after_invoker(call.invoker_opt, at_call) == at_call);
        },
    }
    assert(lookup(scope_after_invoker(call.invoker_opt, at_call), name) == Some(
        Def::Method(target),
    ));
    assert(resolved_unit(program[caller.unit as int], index)[caller.item as int]
        == ItemView::Method(resolved_method(method, None, outer)));
    assert(resolved_method(method, None, outer).exprs[k] == resolved_expr(
        method.exprs[k],
        at_call,
    ));
}

/// Type resolution. The return type of a free method is linked to the class
/// of the program that has its name, wherever that class is defined, where no
/// parameter of the method has the name.
pub proof fn law_return_type_resolves(program: Seq<Seq<ItemView>>, method: DefId, target: DefId)
    requires
        distinct_names(program),
        in_program(program, method),
        item_at(program, method) is Method,
        item_at(program, method)->Method_0.return_type.span is Some,
        in_program(program, target),
        item_at(program, target) is Class,
        name_at(program, target) == item_at(
            program,
            method,
        )->Method_0.return_type.span->Some_0.fragment,
        !has_param(item_at(program, method)->Method_0.params, name_at(program, target)),
    ensures
        class_in(program_index(program), name_at(program, target)) == Some(target),
        resolved_unit(program[method.unit as int], program_index(program))[method.item as int]
            is Method,
        resolved_unit(
            program[method.unit as int],
            program_index(program),
        )[method.item as int]->Method_0.return_type.class_def == Some(target),
{
    let index = program_index(program);
    let source = item_at(program, method)->Method_0;
    let name = name_at(program, target);
    let outer = seq![index];
    law_index_binds_every_definition(program, target);
    lemma_lookup_through_empty(index, name);
    lemma_lookup_after_params(source.params, outer.push(Map::empty()), name);
    assert(resolved_unit(program[method.unit as int], index)[method.item as int]
        == ItemView::Method(resolved_method(source, None, outer)));
}

/// Failure isolation. A call that cannot be resolved does not stand in the
/// way of the next: where the first of two calls names no method and the
/// second names one, the first is left without a link and is the only thing
/// reported, and the second is linked.
pub proof fn law_failure_isolation(scope: Levels, failing: InvokeView, good: InvokeView, target: DefId)
    requires
        failing.invoker_opt is None,
        failing.args.len() == 0,
        good.invoker_opt is None,
        good.args.len() == 0,
        method_of(lookup(scope, failing.name.fragment)) is None,
        lookup(scope, good.name.fragment) == Some(Def::Method(target)),
    ensures
        resolved_exprs(
            seq![ExprView::Invoke(Box::new(failing)), ExprView::Invoke(Box::new(good))],
            scope,
        ) == seq![
            ExprView::Invoke(
                Box::new(
                    InvokeView {
                        invoker_opt: None,
                        name: failing.name,
                        args: Seq::empty(),
                        method_def: None,
                    },
                ),
            ),
            ExprView::Invoke(
                Box::new(
                    InvokeView {
                        invoker_opt: None,
                        name: good.name,
                        args: Seq::empty(),
                        method_def: Some(target),
                    },
                ),
            ),
        ],
        exprs_diagnostics(
            seq![ExprView::Invoke(Box::new(failing)), ExprView::Invoke(Box::new(good))],
            scope,
        ) == seq![
            DiagnosticView::UnresolvedCall {
                name: failing.name.fragment,
                location: failing.name.location(),
            },
        ],
{
    let first = ExprView::Invoke(Box::new(failing));
    let second = ExprView::Invoke(Box::new(good));
    let body = seq![first, second];
    let none = Seq::<ExprView>::empty();
    assert(failing.args =~= none);
    assert(good.args =~= none);
    assert(body.take(0) =~= none);
    assert(body.take(1) =~= seq![first]);
    assert(body.drop_last() =~= seq![first]);
    assert(seq![first].drop_last() =~= none);
    assert(scope_after_exprs(none, scope) == scope);
    assert(scope_after_invoker(failing.invoker_opt, scope) == scope);
    assert(scope_after_invoker(good.invoker_opt, scope) == scope);
    assert(scope_after_expr(first, scope) == scope);
    assert(scope_after_exprs(seq![first], scope) == scope) by {
        assert(seq![first].last() == first);
    }
    assert(resolved_exprs(none, scope) =~= none);
    assert(exprs_diagnostics(none, scope) =~= Seq::<DiagnosticView>::empty());
    assert(invoker_diagnostics(failing.invoker_opt, scope) =~= Seq::<DiagnosticView>::empty());
    assert(invoker_diagnostics(good.invoker_opt, scope) =~= Seq::<DiagnosticView>::empty());
    assert(expr_diagnostics(first, scope) =~= seq![
        DiagnosticView::UnresolvedCall {
            name: failing.name.fragment,
            location: failing.name.location(),
        },
    ]);
    assert(expr_diagnostics(second, scope) =~= Seq::<DiagnosticView>::empty());
    assert(exprs_diagnostics(seq![first], scope) =~= expr_diagnostics(first, scope)) by {
        assert(seq![first].last() == first);
    }
    assert(exprs_diagnostics(body, scope) =~= expr_diagnostics(first, scope)) by {
        assert(body.last() == second);
    }
    assert(resolved_exprs(body, scope) =~= seq![
        resolved_expr(first, scope),
        resolved_expr(second, scope),
    ]);
}

/// The number of references that `expr` leaves without a link: calls without
/// a method and variables without a binding.
pub open spec fn unresolved(expr: ExprView) -> nat
    decreases expr,
{
    match expr {
        ExprView::Invoke(invoke) => unresolved_invoker(invoke.invoker_opt) + (if invoke.method_def
            is None {
            1nat
        } else {
            0nat
        }) + unresolved_all(invoke.args),
        ExprView::Var(var) => if var.def is None {
            1
        } else {
            0
        },
        ExprView::Assignment(assignment) => unresolved(assignment.expr),
        _ => 0,
    }
}

/// The number of references that the receiver of a call leaves without a
/// link.
pub open spec fn unresolved_invoker(invoker: Option<ExprView>) -> nat
    decreases invoker,
{
    match invoker {
        Some(invoker) => unresolved(invoker),
        None => 0,
    }
}

/// The number of references that `exprs` leave without a link.
pub open spec fn unresolved_all(exprs: Seq<ExprView>) -> nat
    decreases exprs,
{
    if exprs.len() == 0 {
        0
    } else {
        unresolved_all(exprs.drop_last()) + unresolved(exprs.last())
    }
}

/// One report for each failure. Resolving an expression reports exactly as
/// many diagnostics as it leaves references without a link.
pub proof fn law_one_diagnostic_per_failure(expr: ExprView, scope: Levels)
    ensures
        expr_diagnostics(expr, scope).len() == unresolved(resolved_expr(expr, scope)),
    decreases expr,
{
    match expr {
        ExprView::Invoke(invoke) => {
            let inner = scope_after_invoker(invoke.invoker_opt, scope);
            match invoke.invoker_opt {
                Some(invoker) => {
                    law_one_diagnostic_per_failure(invoker, scope);
                    assert(invoker_diagnostics(invoke.invoker_opt, scope)
                        == expr_diagnostics(invoker, scope));
                },
                None => {
                    assert(invoker_diagnostics(invoke.invoker_opt, scope).len()
                        == 0);
                },
            }
            law_one_diagnostic_per_failure_all(invoke.args, inner);
            let resolved = resolved_expr(expr, scope)->Invoke_0;
            assert(unresolved(resolved_expr(expr, scope)) == unresolved_invoker(
                resolved.invoker_opt,
            ) + (if resolved.method_def is None {
                1nat
            } else {
                0nat
            }) + unresolved_all(resolved.args));
        },
        ExprView::Assignment(assignment) => {
            law_one_diagnostic_per_failure(assignment.expr, scope);
        },
        _ => {},
    }
}

/// One report for each failure, over a sequence of expressions.
pub proof fn law_one_diagnostic_per_failure_all(exprs: Seq<ExprView>, scope: Levels)
    ensures
        exprs_diagnostics(exprs, scope).len() == unresolved_all(resolved_exprs(exprs, scope)),
    decreases exprs,
{
    if exprs.len() == 0 {
        assert(resolved_exprs(exprs, scope).len() == 0);
    } else {
        let before = exprs.drop_last();
        law_one_diagnostic_per_failure_all(before, scope);
        law_one_diagnostic_per_failure(exprs.last(), scope_after_exprs(before, scope));
        let resolved = resolved_exprs(exprs, scope);
        assert(exprs.take(exprs.len() - 1) =~= before);
        assert forall|i: int| 0 <= i < before.len() implies resolved.drop_last()[i]
            == resolved_exprs(before, scope)[i] by {
            assert(before.take(i) =~= exprs.take(i));
        }
        assert(resolved.drop_last() =~= resolved_exprs(before, scope));
        assert(resolved.last() == resolved_expr(exprs.last(), scope_after_exprs(before, scope)));
    }
}

/// Whether a type annotation is left without a link: it names something, and
/// has no class.
pub open spec fn unresolved_type(tpe: TypeView) -> nat {
    if tpe.span is Some && tpe.class_def is None {
        1
    } else {
        0
    }
}

/// The number of declared types of `params` that are left without a link.
pub open spec fn unresolved_params(params: Seq<ParamView>) -> nat
    decreases params.len(),
{
    if params.len() == 0 {
        0
    } else {
        unresolved_params(params.drop_last()) + unresolved_type(params.last().tpe)
    }
}

/// The number of references that a method leaves without a link.
pub open spec fn unresolved_method(method: MethodView) -> nat {
    unresolved_params(method.params) + unresolved_type(method.return_type) + unresolved_all(
        method.exprs,
    )
}

/// The number of references that `methods` leave without a link.
pub open spec fn unresolved_methods(methods: Seq<MethodView>) -> nat
    decreases methods.len(),
{
    if methods.len() == 0 {
        0
    } else {
        unresolved_methods(methods.drop_last()) + unresolved_method(methods.last())
    }
}

/// The number of references that an item leaves without a link.
pub open spec fn unresolved_item(item: ItemView) -> nat {
    match item {
        ItemView::Class(class) => unresolved_params(class.params) + unresolved_methods(
            class.methods,
        ),
        ItemView::Method(method) => unresolved_method(method),
    }
}

/// The number of references that `items` leave without a link.
pub open spec fn unresolved_items(items: Seq<ItemView>) -> nat
    decreases items.len(),
{
    if items.len() == 0 {
        0
    } else {
        unresolved_items(items.drop_last()) + unresolved_item(items.last())
    }
}

/// One report for each failure, over parameters.
pub proof fn lemma_one_diagnostic_per_param(params: Seq<ParamView>, scope: Levels)
    ensures
        params_diagnostics(params, scope).len() == unresolved_params(
            resolved_params(params, scope),
        ),
    decreases params.len(),
{
    if params.len() > 0 {
        let before = params.drop_last();
        lemma_one_diagnostic_per_param(before, scope);
        let resolved = resolved_params(params, scope);
        assert(params.take(params.len() - 1) =~= before);
        assert forall|i: int| 0 <= i < before.len() implies resolved.drop_last()[i]
            == resolved_params(before, scope)[i] by {
            assert(before.take(i) =~= params.take(i));
        }
        assert(resolved.drop_last() =~= resolved_params(before, scope));
    }
}

/// One report for each failure, over a method.
pub proof fn lemma_one_diagnostic_per_failure_in_method(
    method: MethodView,
    parent_class: Option<DefId>,
    scope: Levels,
)
    ensures
        method_diagnostics(method, scope).len() == unresolved_method(
            resolved_method(method, parent_class, scope),
        ),
{
    lemma_one_diagnostic_per_param(method.params, scope.push(Map::empty()));
    law_one_diagnostic_per_failure_all(method.exprs, method_scope(method, scope));
}

/// One report for each failure, over methods resolved in one scope.
pub proof fn lemma_one_diagnostic_per_failure_in_methods(
    methods: Seq<MethodView>,
    parent_class: Option<DefId>,
    scope: Levels,
)
    ensures
        methods_diagnostics(methods, scope).len() == unresolved_methods(
            Seq::new(methods.len(), |i: int| resolved_method(methods[i], parent_class, scope)),
        ),
    decreases methods.len(),
{
    let resolved = Seq::new(
        methods.len(),
        |i: int| resolved_method(methods[i], parent_class, scope),
    );
    if methods.len() > 0 {
        let before = methods.drop_last();
        lemma_one_diagnostic_per_failure_in_methods(before, parent_class, scope);
        lemma_one_diagnostic_per_failure_in_method(methods.last(), parent_class, scope);
        assert(resolved.drop_last() =~= Seq::new(
            before.len(),
            |i: int| resolved_method(before[i], parent_class, scope),
        ));
    }
}

/// One report for each failure, over an item.
pub proof fn lemma_one_diagnostic_per_failure_in_item(item: ItemView, scope: Levels)
    ensures
        item_diagnostics(item, scope).len() == unresolved_item(resolved_item(item, scope)),
{
    match item {
        ItemView::Class(class) => {
            lemma_one_diagnostic_per_param(class.params, scope.push(Map::empty()));
            lemma_one_diagnostic_per_failure_in_methods(
                class.methods,
                class_handle(class, scope),
                class_scope(class, scope),
            );
        },
        ItemView::Method(method) => {
            lemma_one_diagnostic_per_failure_in_method(method, None, scope);
        },
    }
}

/// One report for each failure, over items resolved in one scope.
pub proof fn lemma_one_diagnostic_per_failure_in_items(items: Seq<ItemView>, scope: Levels)
    ensures
        items_diagnostics(items, scope).len() == unresolved_items(
            Seq::new(items.len(), |i: int| resolved_item(items[i], scope)),
        ),
    decreases items.len(),
{
    let resolved = Seq::new(items.len(), |i: int| resolved_item(items[i], scope));
    if items.len() > 0 {
        let before = items.drop_last();
        lemma_one_diagnostic_per_failure_in_items(before, scope);
        lemma_one_diagnostic_per_failure_in_item(items.last(), scope);
        assert(resolved.drop_last() =~= Seq::new(
            before.len(),
            |i: int| resolved_item(before[i], scope),
        ));
    }
}

/// Success means a tree that is linked throughout. Resolving a unit reports
/// exactly as many diagnostics as it leaves references without a link: a
/// unit is resolved without a diagnostic if and only if every type
/// annotation, every call and every variable of it has its link.
pub proof fn law_diagnostics_count_the_missing_links(
    unit: Seq<ItemView>,
    index: Map<Seq<char>, Def>,
)
    ensures
        unit_diagnostics(unit, index).len() == unresolved_items(resolved_unit(unit, index)),
        unit_diagnostics(unit, index).len() == 0 <==> unresolved_items(resolved_unit(unit, index))
            == 0,
{
    lemma_one_diagnostic_per_failure_in_items(unit, seq![index]);
    assert(resolved_unit(unit, index) =~= Seq::new(
        unit.len(),
        |i: int| resolved_item(unit[i], seq![index]),
    ));
}

/// A type annotation with its link taken away.
pub open spec fn bare_type(tpe: TypeView) -> TypeView {
    TypeView { span: tpe.span, class_def: None }
}

/// Parameters with the links of their declared types taken away.
pub open spec fn bare_params(params: Seq<ParamView>) -> Seq<ParamView> {
    Seq::new(
        params.len(),
        |i: int| ParamView { name: params[i].name, tpe: bare_type(params[i].tpe) },
    )
}

/// An expression with every link taken away.
pub open spec fn bare_expr(expr: ExprView) -> ExprView
    decreases expr,
{
    match expr {
        ExprView::Invoke(invoke) => ExprView::Invoke(
            Box::new(
                InvokeView {
                    invoker_opt: match invoke.invoker_opt {
                        Some(invoker) => Some(bare_expr(invoker)),
                        None => None,
                    },
                    name: invoke.name,
                    args: bare_exprs(invoke.args),
                    method_def: None,
                },
            ),
        ),
        ExprView::Var(var) => ExprView::Var(VarView { name: var.name, def: None }),
        ExprView::Assignment(assignment) => ExprView::Assignment(
            Box::new(
                AssignmentView {
                    var: VarView { name: assignment.var.name, def: None },
                    expr: bare_expr(assignment.expr),
                },
            ),
        ),
        _ => expr,
    }
}

/// Expressions with every link taken away.
pub open spec fn bare_exprs(exprs: Seq<ExprView>) -> Seq<ExprView>
    decreases exprs,
{
    Seq::new(
        exprs.len(),
        |i: int|
            if 0 <= i < exprs.len() {
                bare_expr(exprs[i])
            } else {
                arbitrary()
            },
    )
}

/// A method with every link taken away.
pub open spec fn bare_method(method: MethodView) -> MethodView {
    MethodView {
        name: method.name,
        params: bare_params(method.params),
        exprs: bare_exprs(method.exprs),
        return_type: bare_type(method.return_type),
        parent_class: None,
    }
}

/// An item with every link taken away.
pub open spec fn bare_item(item: ItemView) -> ItemView {
    match item {
        ItemView::Class(class) => ItemView::Class(
            ClassView {
                name: class.name,
                params: bare_params(class.params),
                methods: Seq::new(class.methods.len(), |i: int| bare_method(class.methods[i])),
            },
        ),
        ItemView::Method(method) => ItemView::Method(bare_method(method)),
    }
}

/// A unit with every link taken away.
pub open spec fn bare_unit(unit: Seq<ItemView>) -> Seq<ItemView> {
    Seq::new(unit.len(), |i: int| bare_item(unit[i]))
}

/// Resolving an expression changes its links and nothing else.
pub proof fn lemma_expr_resolution_changes_links_only(expr: ExprView, scope: Levels)
    ensures
        bare_expr(resolved_expr(expr, scope)) == bare_expr(expr),
    decreases expr,
{
    match expr {
        ExprView::Invoke(invoke) => {
            let inner = scope_after_invoker(invoke.invoker_opt, scope);
            match invoke.invoker_opt {
                Some(invoker) => lemma_expr_resolution_changes_links_only(invoker, scope),
                None => {},
            }
            lemma_exprs_resolution_changes_links_only(invoke.args, inner);
        },
        ExprView::Assignment(assignment) => {
            lemma_expr_resolution_changes_links_only(assignment.expr, scope);
        },
        _ => {},
    }
}

/// Resolving expressions changes their links and nothing else.
pub proof fn lemma_exprs_resolution_changes_links_only(exprs: Seq<ExprView>, scope: Levels)
    ensures
        bare_exprs(resolved_exprs(exprs, scope)) == bare_exprs(exprs),
    decreases exprs,
{
    assert forall|i: int| 0 <= i < exprs.len() implies bare_exprs(
        resolved_exprs(exprs, scope),
    )[i] == bare_exprs(exprs)[i] by {
        lemma_expr_resolution_changes_links_only(
            exprs[i],
            scope_after_exprs(exprs.take(i), scope),
        );
    }
    assert(bare_exprs(resolved_exprs(exprs, scope)) =~= bare_exprs(exprs));
}

/// Resolving a method changes its links and nothing else.
pub proof fn lemma_method_resolution_changes_links_only(
    method: MethodView,
    parent_class: Option<DefId>,
    scope: Levels,
)
    ensures
        bare_method(resolved_method(method, parent_class, scope)) == bare_method(method),
{
    lemma_exprs_resolution_changes_links_only(method.exprs, method_scope(method, scope));
    assert(bare_params(resolved_params(method.params, scope.push(Map::empty()))) =~= bare_params(
        method.params,
    ));
}

/// Resolution decorates. Resolving a unit changes its links and nothing
/// else: the resolved unit has the same items, names, places and literals
/// as the unit it was made from.
pub proof fn law_resolution_changes_links_only(unit: Seq<ItemView>, index: Map<Seq<char>, Def>)
    ensures
        bare_unit(resolved_unit(unit, index)) == bare_unit(unit),
{
    let scope = seq![index];
    assert forall|i: int| 0 <= i < unit.len() implies bare_unit(resolved_unit(unit, index))[i]
        == bare_unit(unit)[i] by {
        match unit[i] {
            ItemView::Class(class) => {
                let resolved = resolved_class(class, scope);
                assert(bare_params(resolved.params) =~= bare_params(class.params));
                assert forall|j: int| 0 <= j < class.methods.len() implies bare_method(
                    resolved.methods[j],
                ) == bare_method(class.methods[j]) by {
                    lemma_method_resolution_changes_links_only(
                        class.methods[j],
                        class_handle(class, scope),
                        class_scope(class, scope),
                    );
                }
                assert(Seq::new(resolved.methods.len(), |j: int| bare_method(resolved.methods[j]))
                    =~= Seq::new(class.methods.len(), |j: int| bare_method(class.methods[j])));
            },
            ItemView::Method(method) => {
                lemma_method_resolution_changes_links_only(method, None, scope);
            },
        }
    }
    assert(bare_unit(resolved_unit(unit, index)) =~= bare_unit(unit));
}

} // verus!
