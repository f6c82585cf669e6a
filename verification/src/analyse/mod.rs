//! The resolution passes.
//!
//! [`apply`] resolves the compilation units of a program against the index of
//! that program; [`resolve`] builds the index first. Each unit is resolved on
//! its own, with a scope whose outermost level is the index: what one unit
//! declares is never seen from another, and what one item of a unit declares
//! is never seen from the next.
use vstd::prelude::*;
use crate::analyse::def::class;
use crate::analyse::def::class::{class_diagnostics, resolved_class};
use crate::analyse::def::method;
use crate::analyse::def::method::{method_diagnostics, resolved_method};
use crate::analyse::scope::{Levels, Scope};
use crate::diagnostic::{diagnostics_view, Diagnostic, DiagnosticView};
use crate::index::{
    build, distinct_names, first_collision, name_at, program_index, program_view, site_at, Root,
};
use crate::tree::{items_view, CompilationUnitItem, Def, DefId, ItemView, LilitFile};

pub mod def;
pub mod expr;
pub mod scope;
pub mod tpe;

verus! {

/// A top-level item after resolution in `scope`. A top-level method is a free
/// method: it has no owner.
pub open spec fn resolved_item(item: ItemView, scope: Levels) -> ItemView {
    match item {
        ItemView::Class(class) => ItemView::Class(resolved_class(class, scope)),
        ItemView::Method(method) => ItemView::Method(resolved_method(method, None, scope)),
    }
}

/// What resolving a top-level item in `scope` reports.
pub open spec fn item_diagnostics(item: ItemView, scope: Levels) -> Seq<DiagnosticView> {
    match item {
        ItemView::Class(class) => class_diagnostics(class, scope),
        ItemView::Method(method) => method_diagnostics(method, scope),
    }
}

/// What resolving `items` in `scope`, first to last, reports.
pub open spec fn items_diagnostics(items: Seq<ItemView>, scope: Levels) -> Seq<DiagnosticView>
    decreases items.len(),
{
    if items.len() == 0 {
        Seq::empty()
    } else {
        items_diagnostics(items.drop_last(), scope) + item_diagnostics(items.last(), scope)
    }
}

/// A compilation unit after resolution against `index`: each item is resolved
/// in a scope that holds the index and nothing else.
pub open spec fn resolved_unit(unit: Seq<ItemView>, index: Map<Seq<char>, Def>) -> Seq<ItemView> {
    Seq::new(unit.len(), |i: int| resolved_item(unit[i], seq![index]))
}

/// What resolving a compilation unit against `index` reports, in source
/// order.
pub open spec fn unit_diagnostics(unit: Seq<ItemView>, index: Map<Seq<char>, Def>) -> Seq<
    DiagnosticView,
> {
    items_diagnostics(unit, seq![index])
}

/// What resolving the units of a program against `index` reports, unit by
/// unit.
pub open spec fn program_diagnostics(
    program: Seq<Seq<ItemView>>,
    index: Map<Seq<char>, Def>,
) -> Seq<DiagnosticView>
    decreases program.len(),
{
    if program.len() == 0 {
        Seq::empty()
    } else {
        program_diagnostics(program.drop_last(), index) + unit_diagnostics(program.last(), index)
    }
}

/// Resolves one compilation unit in place against the index of its program
/// and returns what could not be resolved, in source order.
///
/// Every type annotation, call and variable of the unit gets its link, or is
/// left without one and reported. Nothing but links is changed.
pub fn apply_file(file: &mut LilitFile, root: &Root) -> (diagnostics: Vec<Diagnostic>)
    ensures
        final(file)@ == resolved_unit(old(file)@, root@),
        final(file).path == old(file).path,
        diagnostics_view(diagnostics@) == unit_diagnostics(old(file)@, root@),
{
    let ghost source = file@;
    let mut diagnostics: Vec<Diagnostic> = Vec::new();
    let mut scope = Scope::new();
    scope.enter_root(root);
    let ghost outer = scope@;
    assert(outer =~= seq![root@]);
    let n: usize = file.unit.items.len();
    let mut i: usize = 0;
    assert(source.take(0) =~= Seq::empty());
    assert(diagnostics_view(diagnostics@) =~= items_diagnostics(source.take(0), outer));
    while i < n
        invariant
            i <= n,
            n == file.unit.items@.len(),
            n == old(file).unit.items@.len(),
            source == old(file)@,
            file.path == old(file).path,
            scope@ == outer,
            forall|j: int| i <= j < n ==> file.unit.items@[j] == old(file).unit.items@[j],
            forall|j: int|
                0 <= j < i ==> #[trigger] file.unit.items@[j]@ == resolved_item(source[j], outer),
            diagnostics_view(diagnostics@) == items_diagnostics(source.take(i as int), outer),
        decreases n - i,
    {
        proof {
            assert(source.take(i + 1).drop_last() =~= source.take(i as int));
            assert(source.take(i + 1).last() == source[i as int]);
            assert(source[i as int] == file.unit.items@[i as int]@);
        }
        match &mut file.unit.items[i] {
            CompilationUnitItem::Class(class) => {
                class::apply(class, &mut scope, &mut diagnostics);
            },
            CompilationUnitItem::Method(method) => {
                method::apply(method, None, &mut scope, &mut diagnostics);
            },
        }
        assert(diagnostics_view(diagnostics@) =~= items_diagnostics(source.take(i + 1), outer));
        i += 1;
    }
    scope.leave();
    proof {
        assert(source.take(n as int) =~= source);
        assert forall|j: int| 0 <= j < n implies items_view(file.unit.items@)[j] == resolved_unit(
            source,
            root@,
        )[j] by {
            assert(file.unit.items@[j]@ == resolved_item(source[j], outer));
        }
        assert(file@ =~= resolved_unit(source, root@));
    }
    diagnostics
}

/// Resolves the compilation units of a program in place against the index of
/// the program. The result holds, for each unit, what could not be resolved
/// in it.
pub fn apply(files: &mut [LilitFile], root: &Root) -> (diagnostics: Vec<Vec<Diagnostic>>)
    ensures
        final(files)@.len() == old(files)@.len(),
        diagnostics@.len() == old(files)@.len(),
        forall|u: int|
            0 <= u < old(files)@.len() ==> {
                &&& (#[trigger] final(files)@[u])@ == resolved_unit(old(files)@[u]@, root@)
                &&& final(files)@[u].path == old(files)@[u].path
                &&& diagnostics_view(diagnostics@[u]@) == unit_diagnostics(old(files)@[u]@, root@)
            },
{
    let mut diagnostics: Vec<Vec<Diagnostic>> = Vec::new();
    let n: usize = files.len();
    let mut u: usize = 0;
    while u < n
        invariant
            u <= n,
            n == files@.len(),
            n == old(files)@.len(),
            diagnostics@.len() == u,
            forall|v: int| u <= v < n ==> files@[v] == old(files)@[v],
            forall|v: int|
                0 <= v < u ==> {
                    &&& (#[trigger] files@[v])@ == resolved_unit(old(files)@[v]@, root@)
                    &&& files@[v].path == old(files)@[v].path
                    &&& diagnostics_view(diagnostics@[v]@) == unit_diagnostics(
                        old(files)@[v]@,
                        root@,
                    )
                },
        decreases n - u,
    {
        let reported = apply_file(&mut files[u], root);
        diagnostics.push(reported);
        u += 1;
    }
    diagnostics
}

/// Builds the index of a program and resolves its compilation units in place.
///
/// Where two top-level definitions have the same name there is no index:
/// the program is left as it was, and the result is the report of that
/// collision alone. Otherwise every unit is resolved against the index of the
/// program; the result is the index if every reference was resolved, and else
/// what could not be, unit by unit.
pub fn resolve(files: &mut [LilitFile]) -> (result: Result<Root, Vec<Diagnostic>>)
    ensures
        final(files)@.len() == old(files)@.len(),
        !distinct_names(program_view(old(files)@)) ==> {
            &&& final(files)@ == old(files)@
            &&& result matches Err(diagnostics)
            &&& exists|first: DefId, second: DefId|
                first_collision(program_view(old(files)@), first, second) && diagnostics_view(
                    diagnostics@,
                ) == seq![
                    DiagnosticView::DuplicateDefinition {
                        name: name_at(program_view(old(files)@), second),
                        first: site_at(program_view(old(files)@), first),
                        second: site_at(program_view(old(files)@), second),
                    },
                ]
        },
        distinct_names(program_view(old(files)@)) ==> {
            let program = program_view(old(files)@);
            let index = program_index(program);
            &&& forall|u: int|
                0 <= u < old(files)@.len() ==> (#[trigger] final(files)@[u])@ == resolved_unit(
                    old(files)@[u]@,
                    index,
                ) && final(files)@[u].path == old(files)@[u].path
            &&& result is Ok <==> program_diagnostics(program, index).len() == 0
            &&& match result {
                Ok(root) => root@ == index,
                Err(diagnostics) => diagnostics_view(diagnostics@) == program_diagnostics(
                    program,
                    index,
                ),
            }
        },
{
    let ghost program = program_view(files@);
    match build(files) {
        Err(duplicate) => {
            let mut diagnostics: Vec<Diagnostic> = Vec::new();
            diagnostics.push(duplicate);
            assert(diagnostics_view(diagnostics@) =~= seq![duplicate@]);
            Err(diagnostics)
        },
        Ok(root) => {
            let mut reported = apply(files, &root);
            let mut diagnostics: Vec<Diagnostic> = Vec::new();
            let n: usize = reported.len();
            assert forall|v: int| 0 <= v < n implies diagnostics_view(#[trigger] reported@[v]@)
                == unit_diagnostics(program[v], root@) by {
                assert(files@[v]@ == resolved_unit(old(files)@[v]@, root@));
            }
            let mut u: usize = 0;
            assert(program.take(0) =~= Seq::empty());
            assert(diagnostics_view(diagnostics@) =~= program_diagnostics(program.take(0), root@));
            while u < n
                invariant
                    u <= n,
                    n == reported@.len(),
                    n == program.len(),
                    forall|v: int|
                        u <= v < n ==> diagnostics_view(#[trigger] reported@[v]@)
                            == unit_diagnostics(program[v], root@),
                    diagnostics_view(diagnostics@) == program_diagnostics(
                        program.take(u as int),
                        root@,
                    ),
                decreases n - u,
            {
                proof {
                    assert(program.take(u + 1).drop_last() =~= program.take(u as int));
                    assert(program.take(u + 1).last() == program[u as int]);
                }
                let ghost before = diagnostics@;
                let ghost added = reported@[u as int]@;
                diagnostics.append(&mut reported[u]);
                assert(diagnostics_view(diagnostics@) =~= diagnostics_view(before)
                    + diagnostics_view(added));
                u += 1;
            }
            assert(program.take(n as int) =~= program);
            if diagnostics.len() == 0 {
                Ok(root)
            } else {
                Err(diagnostics)
            }
        },
    }
}

} // verus!
