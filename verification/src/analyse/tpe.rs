//! Resolution of type annotations.
use vstd::prelude::*;
use crate::analyse::scope::{class_of, lookup, Levels, Scope};
use crate::diagnostic::{diagnostics_view, lemma_diagnostics_view_push, Diagnostic, DiagnosticView};
use crate::tree::{Def, Type, TypeView};

verus! {

/// A type annotation after resolution in `scope`: its link is the class that
/// its name denotes there, and empty if the name denotes no class. Where the
/// source gives no annotation there is nothing to resolve.
pub open spec fn resolved_type(tpe: TypeView, scope: Levels) -> TypeView {
    match tpe.span {
        Some(span) => TypeView {
            span: tpe.span,
            class_def: class_of(lookup(scope, span.fragment)),
        },
        None => tpe,
    }
}

/// What resolving a type annotation in `scope` reports: nothing, or that its
/// name denotes no class.
pub open spec fn type_diagnostics(tpe: TypeView, scope: Levels) -> Seq<DiagnosticView> {
    match tpe.span {
        Some(span) => if class_of(lookup(scope, span.fragment)) is None {
            seq![
                DiagnosticView::UnresolvedType {
                    name: span.fragment,
                    location: span.location(),
                },
            ]
        } else {
            Seq::empty()
        },
        None => Seq::empty(),
    }
}

/// Resolves a type annotation: links it to the class that its name denotes in
/// `scope`, or leaves it without a link and reports the name.
pub fn apply(tpe: &mut Type, scope: &Scope, diagnostics: &mut Vec<Diagnostic>)
    ensures
        final(tpe)@ == resolved_type(old(tpe)@, scope@),
        diagnostics_view(final(diagnostics)@) == diagnostics_view(old(diagnostics)@)
            + type_diagnostics(old(tpe)@, scope@),
{
    match &tpe.span {
        Some(span) => {
            match scope.read(span.fragment.as_str()) {
                Some(Def::Class(id)) => {
                    tpe.class_def = Some(id);
                    assert(diagnostics_view(diagnostics@) =~= diagnostics_view(old(diagnostics)@)
                        + type_diagnostics(old(tpe)@, scope@));
                },
                _ => {
                    tpe.class_def = None;
                    let diagnostic = Diagnostic::UnresolvedType {
                        name: span.fragment.clone(),
                        location: span.location(),
                    };
                    proof {
                        lemma_diagnostics_view_push(diagnostics@, diagnostic);
                    }
                    diagnostics.push(diagnostic);
                    assert(diagnostics_view(diagnostics@) =~= diagnostics_view(old(diagnostics)@)
                        + type_diagnostics(old(tpe)@, scope@));
                },
            }
        },
        None => {
            assert(diagnostics_view(diagnostics@) =~= diagnostics_view(old(diagnostics)@)
                + type_diagnostics(old(tpe)@, scope@));
        },
    }
}

} // verus!
