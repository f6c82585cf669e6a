//! Resolution of classes.
use vstd::prelude::*;
use crate::analyse::def::method;
use crate::analyse::def::method::{method_diagnostics, resolved_method};
use crate::analyse::def::{
    apply_params, lemma_scope_after_params_frame, params_diagnostics, resolved_params,
    scope_after_params,
};
use crate::analyse::scope::{class_of, lookup, Levels, Scope};
use crate::diagnostic::{diagnostics_view, Diagnostic, DiagnosticView};
use crate::tree::{methods_view, params_view, Class, ClassView, Def, DefId, MethodView};

verus! {

/// The scope inside a class: a new level over `scope` in which the
/// parameters of the class are declared.
pub open spec fn class_scope(class: ClassView, scope: Levels) -> Levels {
    scope_after_params(class.params, scope.push(Map::empty()))
}

/// The handle of a class, as the scope around the class knows it: the class
/// that the name of the class denotes there.
pub open spec fn class_handle(class: ClassView, scope: Levels) -> Option<DefId> {
    class_of(lookup(scope, class.name.fragment))
}

/// A class after resolution in `scope`.
///
/// The declared types of its parameters are resolved in a level of the
/// class's own. Each method is resolved in that level, with the parameters of
/// the class declared, and is linked to the class as its owner.
pub open spec fn resolved_class(class: ClassView, scope: Levels) -> ClassView {
    ClassView {
        name: class.name,
        params: resolved_params(class.params, scope.push(Map::empty())),
        methods: Seq::new(
            class.methods.len(),
            |i: int|
                resolved_method(
                    class.methods[i],
                    class_handle(class, scope),
                    class_scope(class, scope),
                ),
        ),
    }
}

/// What resolving `methods` in `scope`, first to last, reports.
pub open spec fn methods_diagnostics(methods: Seq<MethodView>, scope: Levels) -> Seq<
    DiagnosticView,
>
    decreases methods.len(),
{
    if methods.len() == 0 {
        Seq::empty()
    } else {
        methods_diagnostics(methods.drop_last(), scope) + method_diagnostics(
            methods.last(),
            scope,
        )
    }
}

/// What resolving a class in `scope` reports: first for its parameters, then
/// for its methods.
pub open spec fn class_diagnostics(class: ClassView, scope: Levels) -> Seq<DiagnosticView> {
    params_diagnostics(class.params, scope.push(Map::empty())) + methods_diagnostics(
        class.methods,
        class_scope(class, scope),
    )
}

/// Resolves a class in place.
///
/// The class gets a level of its own, which is gone when the call returns:
/// the scope is then what it was before.
pub fn apply(class: &mut Class, scope: &mut Scope, diagnostics: &mut Vec<Diagnostic>)
    ensures
        final(class)@ == resolved_class(old(class)@, old(scope)@),
        final(scope)@ == old(scope)@,
        diagnostics_view(final(diagnostics)@) == diagnostics_view(old(diagnostics)@)
            + class_diagnostics(old(class)@, old(scope)@),
{
    let ghost outer = scope@;
    let ghost source = class@;
    let this: Option<DefId> = match scope.read(class.name.fragment.as_str()) {
        Some(Def::Class(id)) => Some(id),
        _ => None,
    };
    scope.enter();
    proof {
        lemma_scope_after_params_frame(source.params, outer.push(Map::empty()));
        assert(outer.push(Map::empty()).drop_last() =~= outer);
    }
    apply_params(&mut class.params, scope, diagnostics);
    let ghost inner = scope@;
    let ghost reported = diagnostics@;
    let n: usize = class.methods.len();
    let mut i: usize = 0;
    assert(source.methods.take(0) =~= Seq::empty());
    assert(diagnostics_view(diagnostics@) =~= diagnostics_view(reported) + methods_diagnostics(
        source.methods.take(0),
        inner,
    ));
    while i < n
        invariant
            i <= n,
            n == class.methods@.len(),
            n == old(class).methods@.len(),
            source == old(class)@,
            class.name == old(class).name,
            params_view(class.params@) == resolved_params(
                params_view(old(class).params@),
                outer.push(Map::empty()),
            ),
            scope@ == inner,
            forall|j: int| i <= j < n ==> class.methods@[j] == old(class).methods@[j],
            forall|j: int|
                0 <= j < i ==> #[trigger] class.methods@[j]@ == resolved_method(
                    source.methods[j],
                    this,
                    inner,
                ),
            diagnostics_view(diagnostics@) == diagnostics_view(reported) + methods_diagnostics(
                source.methods.take(i as int),
                inner,
            ),
        decreases n - i,
    {
        proof {
            assert(source.methods.take(i + 1).drop_last() =~= source.methods.take(i as int));
            assert(source.methods.take(i + 1).last() == source.methods[i as int]);
            assert(source.methods[i as int] == class.methods@[i as int]@);
        }
        method::apply(&mut class.methods[i], this, scope, diagnostics);
        assert(diagnostics_view(diagnostics@) =~= diagnostics_view(reported) + methods_diagnostics(
            source.methods.take(i + 1),
            inner,
        ));
        i += 1;
    }
    scope.leave();
    proof {
        assert(source.methods.take(n as int) =~= source.methods);
        assert forall|j: int| 0 <= j < n implies methods_view(class.methods@)[j]
            == resolved_class(source, outer).methods[j] by {
            assert(class.methods@[j]@ == resolved_method(source.methods[j], this, inner));
        }
        assert(methods_view(class.methods@) =~= resolved_class(source, outer).methods);
        assert(diagnostics_view(diagnostics@) =~= diagnostics_view(old(diagnostics)@)
            + class_diagnostics(source, outer));
    }
}

} // verus!
