//! Resolution of definitions: classes, methods and their parameters.
use vstd::prelude::*;
use crate::analyse::scope::{bind, lemma_bind_frame, Levels, Scope};
use crate::analyse::tpe;
use crate::analyse::tpe::{resolved_type, type_diagnostics};
use crate::diagnostic::{diagnostics_view, Diagnostic, DiagnosticView};
use crate::tree::{params_view, Def, Param, ParamView};

pub mod class;
pub mod method;

verus! {

/// The scope after the parameters are declared, first to last, in the
/// innermost level of `scope`.
pub open spec fn scope_after_params(params: Seq<ParamView>, scope: Levels) -> Levels
    decreases params.len(),
{
    if params.len() == 0 {
        scope
    } else {
        bind(
            scope_after_params(params.drop_last(), scope),
            params.last().name.fragment,
            Def::Local(params.last().name.location()),
        )
    }
}

/// The parameters after resolution in `scope`: the declared type of each is
/// resolved in the scope in which the parameters before it are declared.
pub open spec fn resolved_params(params: Seq<ParamView>, scope: Levels) -> Seq<ParamView> {
    Seq::new(
        params.len(),
        |i: int|
            ParamView {
                name: params[i].name,
                tpe: resolved_type(params[i].tpe, scope_after_params(params.take(i), scope)),
            },
    )
}

/// What resolving the declared types of the parameters reports, first to
/// last.
pub open spec fn params_diagnostics(params: Seq<ParamView>, scope: Levels) -> Seq<DiagnosticView>
    decreases params.len(),
{
    if params.len() == 0 {
        Seq::empty()
    } else {
        params_diagnostics(params.drop_last(), scope) + type_diagnostics(
            params.last().tpe,
            scope_after_params(params.drop_last(), scope),
        )
    }
}

/// Declaring parameters touches the innermost level only.
pub proof fn lemma_scope_after_params_frame(params: Seq<ParamView>, scope: Levels)
    ensures
        scope_after_params(params, scope).len() == scope.len(),
        scope_after_params(params, scope).drop_last() == scope.drop_last(),
    decreases params.len(),
{
    if params.len() > 0 {
        lemma_scope_after_params_frame(params.drop_last(), scope);
        lemma_bind_frame(
            scope_after_params(params.drop_last(), scope),
            params.last().name.fragment,
            Def::Local(params.last().name.location()),
        );
    }
}

/// Resolves the declared type of each parameter and declares its name as a
/// local, first to last.
pub fn apply_params(params: &mut Vec<Param>, scope: &mut Scope, diagnostics: &mut Vec<Diagnostic>)
    ensures
        params_view(final(params)@) == resolved_params(params_view(old(params)@), old(scope)@),
        final(scope)@ == scope_after_params(params_view(old(params)@), old(scope)@),
        diagnostics_view(final(diagnostics)@) == diagnostics_view(old(diagnostics)@)
            + params_diagnostics(params_view(old(params)@), old(scope)@),
{
    let ghost source = params_view(old(params)@);
    let n: usize = params.len();
    let mut i: usize = 0;
    assert(source.take(0) =~= Seq::empty());
    assert(diagnostics_view(diagnostics@) =~= diagnostics_view(old(diagnostics)@)
        + params_diagnostics(source.take(0), old(scope)@));
    while i < n
        invariant
            i <= n,
            n == params@.len(),
            n == old(params)@.len(),
            source == params_view(old(params)@),
            forall|j: int| i <= j < n ==> params@[j] == old(params)@[j],
            forall|j: int|
                0 <= j < i ==> #[trigger] params@[j]@ == resolved_params(source, old(scope)@)[j],
            scope@ == scope_after_params(source.take(i as int), old(scope)@),
            diagnostics_view(diagnostics@) == diagnostics_view(old(diagnostics)@)
                + params_diagnostics(source.take(i as int), old(scope)@),
        decreases n - i,
    {
        proof {
            assert(source.take(i + 1).drop_last() =~= source.take(i as int));
            assert(source.take(i + 1).last() == source[i as int]);
            assert(source[i as int] == params@[i as int]@);
        }
        let param = &mut params[i];
        tpe::apply(&mut param.tpe, scope, diagnostics);
        scope.declare(param.name.fragment.as_str(), Def::Local(param.name.location()));
        assert(diagnostics_view(diagnostics@) =~= diagnostics_view(old(diagnostics)@)
            + params_diagnostics(source.take(i + 1), old(scope)@));
        i += 1;
    }
    assert(source.take(n as int) =~= source);
    assert forall|j: int| 0 <= j < n implies params_view(params@)[j] == resolved_params(
        source,
        old(scope)@,
    )[j] by {
        assert(params@[j]@ == resolved_params(source, old(scope)@)[j]);
    }
    assert(params_view(params@) =~= resolved_params(source, old(scope)@));
}

} // verus!
