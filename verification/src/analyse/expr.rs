//! Resolution of expressions.
//!
//! Expressions are resolved in source order, and an assignment declares its
//! variable in the innermost level of the scope as it is passed. So a
//! variable is bound for the expressions that follow its declaration and for
//! none before it.
use vstd::prelude::*;
use crate::analyse::scope::{bind, lemma_bind_frame, lookup, method_of, Levels, Scope};
use crate::diagnostic::{diagnostics_view, lemma_diagnostics_view_push, Diagnostic, DiagnosticView};
use crate::tree::{exprs_view, AssignmentView, Def, Expr, ExprView, InvokeView, VarView};

verus! {

/// The scope that resolving `expr` in `scope` leaves behind: every variable
/// that an assignment in `expr` declares is bound in the innermost level.
pub open spec fn scope_after_expr(expr: ExprView, scope: Levels) -> Levels
    decreases expr,
{
    match expr {
        ExprView::Invoke(invoke) => scope_after_exprs(
            invoke.args,
            scope_after_invoker(invoke.invoker_opt, scope),
        ),
        ExprView::Assignment(assignment) => bind(
            scope_after_expr(assignment.expr, scope),
            assignment.var.name.fragment,
            Def::Local(assignment.var.name.location()),
        ),
        _ => scope,
    }
}

/// The scope that resolving the receiver of a call leaves behind.
pub open spec fn scope_after_invoker(invoker: Option<ExprView>, scope: Levels) -> Levels
    decreases invoker,
{
    match invoker {
        Some(invoker) => scope_after_expr(invoker, scope),
        None => scope,
    }
}

/// The scope that resolving `exprs` in `scope`, first to last, leaves behind.
pub open spec fn scope_after_exprs(exprs: Seq<ExprView>, scope: Levels) -> Levels
    decreases exprs,
{
    if exprs.len() == 0 {
        scope
    } else {
        scope_after_expr(exprs.last(), scope_after_exprs(exprs.drop_last(), scope))
    }
}

/// An expression after resolution in `scope`.
///
/// A call is linked to the method that its name denotes in the scope that its
/// receiver leaves behind; its arguments follow. A variable is linked to what
/// its name denotes. An assignment resolves its right-hand side and links its
/// variable to the local that it declares.
pub open spec fn resolved_expr(expr: ExprView, scope: Levels) -> ExprView
    decreases expr,
{
    match expr {
        ExprView::Invoke(invoke) => {
            let inner = scope_after_invoker(invoke.invoker_opt, scope);
            ExprView::Invoke(
                Box::new(
                    InvokeView {
                        invoker_opt: match invoke.invoker_opt {
                            Some(invoker) => Some(resolved_expr(invoker, scope)),
                            None => None,
                        },
                        name: invoke.name,
                        args: resolved_exprs(invoke.args, inner),
                        method_def: method_of(lookup(inner, invoke.name.fragment)),
                    },
                ),
            )
        },
        ExprView::Var(var) => ExprView::Var(
            VarView { name: var.name, def: lookup(scope, var.name.fragment) },
        ),
        ExprView::Assignment(assignment) => ExprView::Assignment(
            Box::new(
                AssignmentView {
                    var: VarView {
                        name: assignment.var.name,
                        def: Some(Def::Local(assignment.var.name.location())),
                    },
                    expr: resolved_expr(assignment.expr, scope),
                },
            ),
        ),
        _ => expr,
    }
}

/// A sequence of expressions after resolution in `scope`: each is resolved in
/// the scope that the ones before it leave behind.
pub open spec fn resolved_exprs(exprs: Seq<ExprView>, scope: Levels) -> Seq<ExprView>
    decreases exprs,
{
    Seq::new(
        exprs.len(),
        |i: int|
            if 0 <= i < exprs.len() {
                resolved_expr(exprs[i], scope_after_exprs(exprs.take(i), scope))
            } else {
                arbitrary()
            },
    )
}

/// What resolving `expr` in `scope` reports, in the order of resolution: one
/// diagnostic for each call whose name denotes no method and for each
/// variable whose name is not bound.
pub open spec fn expr_diagnostics(expr: ExprView, scope: Levels) -> Seq<DiagnosticView>
    decreases expr,
{
    match expr {
        ExprView::Invoke(invoke) => {
            let inner = scope_after_invoker(invoke.invoker_opt, scope);
            invoker_diagnostics(invoke.invoker_opt, scope) + (if method_of(
                lookup(inner, invoke.name.fragment),
            ) is None {
                seq![
                    DiagnosticView::UnresolvedCall {
                        name: invoke.name.fragment,
                        location: invoke.name.location(),
                    },
                ]
            } else {
                Seq::empty()
            }) + exprs_diagnostics(invoke.args, inner)
        },
        ExprView::Var(var) => if lookup(scope, var.name.fragment) is None {
            seq![
                DiagnosticView::UnresolvedVariable {
                    name: var.name.fragment,
                    location: var.name.location(),
                },
            ]
        } else {
            Seq::empty()
        },
        ExprView::Assignment(assignment) => expr_diagnostics(assignment.expr, scope),
        _ => Seq::empty(),
    }
}

/// What resolving the receiver of a call reports.
pub open spec fn invoker_diagnostics(invoker: Option<ExprView>, scope: Levels) -> Seq<
    DiagnosticView,
>
    decreases invoker,
{
    match invoker {
        Some(invoker) => expr_diagnostics(invoker, scope),
        None => Seq::empty(),
    }
}

/// What resolving `exprs` in `scope`, first to last, reports.
pub open spec fn exprs_diagnostics(exprs: Seq<ExprView>, scope: Levels) -> Seq<DiagnosticView>
    decreases exprs,
{
    if exprs.len() == 0 {
        Seq::empty()
    } else {
        exprs_diagnostics(exprs.drop_last(), scope) + expr_diagnostics(
            exprs.last(),
            scope_after_exprs(exprs.drop_last(), scope),
        )
    }
}

/// Resolving an expression touches the innermost level only: the number of
/// levels and the levels below stay as they are.
pub proof fn lemma_scope_after_expr_frame(expr: ExprView, scope: Levels)
    ensures
        scope_after_expr(expr, scope).len() == scope.len(),
        scope_after_expr(expr, scope).drop_last() == scope.drop_last(),
    decreases expr,
{
    match expr {
        ExprView::Invoke(invoke) => {
            match invoke.invoker_opt {
                Some(invoker) => lemma_scope_after_expr_frame(invoker, scope),
                None => {},
            }
            lemma_scope_after_exprs_frame(
                invoke.args,
                scope_after_invoker(invoke.invoker_opt, scope),
            );
        },
        ExprView::Assignment(assignment) => {
            lemma_scope_after_expr_frame(assignment.expr, scope);
            lemma_bind_frame(
                scope_after_expr(assignment.expr, scope),
                assignment.var.name.fragment,
                Def::Local(assignment.var.name.location()),
            );
        },
        _ => {},
    }
}

/// Resolving a sequence of expressions touches the innermost level only.
pub proof fn lemma_scope_after_exprs_frame(exprs: Seq<ExprView>, scope: Levels)
    ensures
        scope_after_exprs(exprs, scope).len() == scope.len(),
        scope_after_exprs(exprs, scope).drop_last() == scope.drop_last(),
    decreases exprs,
{
    if exprs.len() > 0 {
        lemma_scope_after_exprs_frame(exprs.drop_last(), scope);
        lemma_scope_after_expr_frame(exprs.last(), scope_after_exprs(exprs.drop_last(), scope));
    }
}

/// Resolves an expression in place, declaring in the innermost level of
/// `scope` what the expression declares.
///
/// A reference that cannot be resolved is left without a link and reported;
/// the rest of the expression is resolved all the same.
pub fn apply(expr: &mut Expr, scope: &mut Scope, diagnostics: &mut Vec<Diagnostic>)
    ensures
        final(expr)@ == resolved_expr(old(expr)@, old(scope)@),
        final(scope)@ == scope_after_expr(old(expr)@, old(scope)@),
        diagnostics_view(final(diagnostics)@) == diagnostics_view(old(diagnostics)@)
            + expr_diagnostics(old(expr)@, old(scope)@),
    decreases *old(expr),
{
    match expr {
        Expr::Invoke(invoke) => {
            let ghost before = invoke@;
            match &mut invoke.invoker_opt {
                Some(invoker) => {
                    apply(invoker, scope, diagnostics);
                },
                None => {},
            }
            assert(scope@ == scope_after_invoker(before.invoker_opt, old(scope)@));
            assert(diagnostics_view(diagnostics@) == diagnostics_view(old(diagnostics)@)
                + invoker_diagnostics(before.invoker_opt, old(scope)@));
            match scope.read(invoke.name.fragment.as_str()) {
                Some(Def::Method(id)) => {
                    invoke.method_def = Some(id);
                },
                _ => {
                    invoke.method_def = None;
                    let diagnostic = Diagnostic::UnresolvedCall {
                        name: invoke.name.fragment.clone(),
                        location: invoke.name.location(),
                    };
                    proof {
                        lemma_diagnostics_view_push(diagnostics@, diagnostic);
                    }
                    diagnostics.push(diagnostic);
                },
            }
            apply_all(&mut invoke.args, scope, diagnostics);
            assert(diagnostics_view(diagnostics@) =~= diagnostics_view(old(diagnostics)@)
                + expr_diagnostics(old(expr)@, old(scope)@));
        },
        Expr::Var(var) => {
            match scope.read(var.name.fragment.as_str()) {
                Some(def) => {
                    var.def = Some(def);
                },
                None => {
                    var.def = None;
                    let diagnostic = Diagnostic::UnresolvedVariable {
                        name: var.name.fragment.clone(),
                        location: var.name.location(),
                    };
                    proof {
                        lemma_diagnostics_view_push(diagnostics@, diagnostic);
                    }
                    diagnostics.push(diagnostic);
                },
            }
            assert(diagnostics_view(diagnostics@) =~= diagnostics_view(old(diagnostics)@)
                + expr_diagnostics(old(expr)@, old(scope)@));
        },
        Expr::Assignment(assignment) => {
            apply(&mut assignment.expr, scope, diagnostics);
            let local = Def::Local(assignment.var.name.location());
            scope.declare(assignment.var.name.fragment.as_str(), local);
            assignment.var.def = Some(local);
        },
        _ => {
            assert(diagnostics_view(diagnostics@) =~= diagnostics_view(old(diagnostics)@)
                + expr_diagnostics(old(expr)@, old(scope)@));
        },
    }
}

/// Resolves a sequence of expressions in place, first to last.
pub fn apply_all(exprs: &mut Vec<Expr>, scope: &mut Scope, diagnostics: &mut Vec<Diagnostic>)
    ensures
        exprs_view(final(exprs)@) == resolved_exprs(exprs_view(old(exprs)@), old(scope)@),
        final(scope)@ == scope_after_exprs(exprs_view(old(exprs)@), old(scope)@),
        diagnostics_view(final(diagnostics)@) == diagnostics_view(old(diagnostics)@)
            + exprs_diagnostics(exprs_view(old(exprs)@), old(scope)@),
    decreases *old(exprs),
{
    let ghost source = exprs_view(old(exprs)@);
    let n: usize = exprs.len();
    let mut i: usize = 0;
    assert(source.take(0) =~= Seq::empty());
    assert(diagnostics_view(diagnostics@) =~= diagnostics_view(old(diagnostics)@)
        + exprs_diagnostics(source.take(0), old(scope)@));
    while i < n
        invariant
            i <= n,
            n == exprs@.len(),
            n == old(exprs)@.len(),
            source == exprs_view(old(exprs)@),
            forall|j: int| i <= j < n ==> exprs@[j] == old(exprs)@[j],
            forall|j: int|
                0 <= j < i ==> #[trigger] exprs@[j]@ == resolved_expr(
                    source[j],
                    scope_after_exprs(source.take(j), old(scope)@),
                ),
            scope@ == scope_after_exprs(source.take(i as int), old(scope)@),
            diagnostics_view(diagnostics@) == diagnostics_view(old(diagnostics)@)
                + exprs_diagnostics(source.take(i as int), old(scope)@),
        decreases n - i,
    {
        proof {
            assert(source.take(i + 1).drop_last() =~= source.take(i as int));
            assert(source.take(i + 1).last() == source[i as int]);
            assert(source[i as int] == exprs@[i as int]@);
        }
        apply(&mut exprs[i], scope, diagnostics);
        assert(diagnostics_view(diagnostics@) =~= diagnostics_view(old(diagnostics)@)
            + exprs_diagnostics(source.take(i + 1), old(scope)@));
        i += 1;
    }
    assert(source.take(n as int) =~= source);
    assert forall|j: int| 0 <= j < n implies exprs_view(exprs@)[j] == resolved_exprs(
        source,
        old(scope)@,
    )[j] by {
        assert(exprs@[j]@ == resolved_expr(
            source[j],
            scope_after_exprs(source.take(j), old(scope)@),
        ));
    }
    assert(exprs_view(exprs@) =~= resolved_exprs(source, old(scope)@));
}

} // verus!
