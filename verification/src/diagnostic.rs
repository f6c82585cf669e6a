//! What the library reports when a program cannot be resolved.
use vstd::prelude::*;
use crate::tree::Location;

verus! {

/// A place in a program of several compilation units.
#[derive(Debug, Clone, Copy, PartialEq, Eq, Hash, Structural)]
pub struct Site {
    /// The position of the compilation unit in the program.
    pub unit: usize,
    pub location: Location,
}

/// A failure of resolution.
///
/// `DuplicateDefinition` ends the construction of the index: no table is
/// built. The other three are local: the reference they speak of is left
/// without a link and resolution goes on.
#[derive(Debug, PartialEq, Eq)]
pub enum Diagnostic {
    /// Two top-level definitions have the same name.
    DuplicateDefinition { name: String, first: Site, second: Site },
    /// A type annotation names no class.
    UnresolvedType { name: String, location: Location },
    /// A call names no method.
    UnresolvedCall { name: String, location: Location },
    /// A variable's name is not bound.
    UnresolvedVariable { name: String, location: Location },
}

pub enum DiagnosticView {
    DuplicateDefinition { name: Seq<char>, first: Site, second: Site },
    UnresolvedType { name: Seq<char>, location: Location },
    UnresolvedCall { name: Seq<char>, location: Location },
    UnresolvedVariable { name: Seq<char>, location: Location },
}

impl View for Diagnostic {
    type V = DiagnosticView;

    open spec fn view(&self) -> DiagnosticView {
        match self {
            Diagnostic::DuplicateDefinition { name, first, second } => {
                DiagnosticView::DuplicateDefinition { name: name@, first: *first, second: *second }
            },
            Diagnostic::UnresolvedType { name, location } => {
                DiagnosticView::UnresolvedType { name: name@, location: *location }
            },
            Diagnostic::UnresolvedCall { name, location } => {
                DiagnosticView::UnresolvedCall { name: name@, location: *location }
            },
            Diagnostic::UnresolvedVariable { name, location } => {
                DiagnosticView::UnresolvedVariable { name: name@, location: *location }
            },
        }
    }
}

/// The views of a sequence of diagnostics, in order.
pub open spec fn diagnostics_view(diagnostics: Seq<Diagnostic>) -> Seq<DiagnosticView> {
    Seq::new(diagnostics.len(), |i: int| diagnostics[i]@)
}

/// Appending one diagnostic appends its view.
pub proof fn lemma_diagnostics_view_push(diagnostics: Seq<Diagnostic>, diagnostic: Diagnostic)
    ensures
        diagnostics_view(diagnostics.push(diagnostic)) == diagnostics_view(diagnostics).push(
            diagnostic@,
        ),
{
    assert(diagnostics_view(diagnostics.push(diagnostic)) =~= diagnostics_view(diagnostics).push(
        diagnostic@,
    ));
}

} // verus!
