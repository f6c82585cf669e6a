//! Resolution of methods.
use vstd::prelude::*;
use crate::analyse::def::{
    apply_params, lemma_scope_after_params_frame, params_diagnostics, resolved_params,
    scope_after_params,
};
use crate::analyse::expr;
use crate::analyse::expr::{exprs_diagnostics, lemma_scope_after_exprs_frame, resolved_exprs};
use crate::analyse::scope::{Levels, Scope};
use crate::analyse::tpe;
use crate::analyse::tpe::{resolved_type, type_diagnostics};
use crate::diagnostic::{diagnostics_view, Diagnostic, DiagnosticView};
use crate::tree::{DefId, Method, MethodView};

verus! {

/// The scope inside a method: a new level over `scope` in which the
/// parameters of the method are declared.
pub open spec fn method_scope(method: MethodView, scope: Levels) -> Levels {
    scope_after_params(method.params, scope.push(Map::empty()))
}

/// A method after resolution in `scope`, as a method of `parent_class`.
///
/// The declared types of the parameters, the return type and the body are
/// resolved in a level of the method's own; the body sees the parameters.
pub open spec fn resolved_method(
    method: MethodView,
    parent_class: Option<DefId>,
    scope: Levels,
) -> MethodView {
    MethodView {
        name: method.name,
        params: resolved_params(method.params, scope.push(Map::empty())),
        exprs: resolved_exprs(method.exprs, method_scope(method, scope)),
        return_type: resolved_type(method.return_type, method_scope(method, scope)),
        parent_class,
    }
}

/// What resolving a method in `scope` reports: first for its parameters, then
/// for its return type, then for its body.
pub open spec fn method_diagnostics(method: MethodView, scope: Levels) -> Seq<DiagnosticView> {
    params_diagnostics(method.params, scope.push(Map::empty())) + type_diagnostics(
        method.return_type,
        method_scope(method, scope),
    ) + exprs_diagnostics(method.exprs, method_scope(method, scope))
}

/// Resolves a method in place.
///
/// The method gets a level of its own, which is gone when the call returns:
/// the scope is then what it was before, and nothing that the method
/// declared is bound in it.
pub fn apply(
    method: &mut Method,
    parent_class: Option<DefId>,
    scope: &mut Scope,
    diagnostics: &mut Vec<Diagnostic>,
)
    ensures
        final(method)@ == resolved_method(old(method)@, parent_class, old(scope)@),
        final(scope)@ == old(scope)@,
        diagnostics_view(final(diagnostics)@) == diagnostics_view(old(diagnostics)@)
            + method_diagnostics(old(method)@, old(scope)@),
{
    let ghost outer = scope@;
    let ghost source = method@;
    scope.enter();
    proof {
        lemma_scope_after_params_frame(source.params, outer.push(Map::empty()));
        lemma_scope_after_exprs_frame(source.exprs, method_scope(source, outer));
        assert(outer.push(Map::empty()).drop_last() =~= outer);
    }
    apply_params(&mut method.params, scope, diagnostics);
    tpe::apply(&mut method.return_type, scope, diagnostics);
    expr::apply_all(&mut method.exprs, scope, diagnostics);
    method.parent_class = parent_class;
    scope.leave();
    assert(diagnostics_view(diagnostics@) =~= diagnostics_view(old(diagnostics)@)
        + method_diagnostics(source, outer));
}

} // verus!
