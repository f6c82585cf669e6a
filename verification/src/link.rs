//! Linking of calls within one compilation unit.
//!
//! For a program that is a single unit a table of its free functions is all
//! that a call needs. [`register_funcs`] fills the table and refuses a name
//! that is taken; [`hydrate_funcs`] links through it every call of the unit
//! and reports the calls whose name the table lacks. The unit counts as
//! unit 0 of its program.
use vstd::prelude::*;
use vstd::hash_map::StringHashMap;
use crate::diagnostic::{
    diagnostics_view, lemma_diagnostics_view_push, Diagnostic, DiagnosticView, Site,
};
use crate::index::{defines, distinct_names, in_program, method_in, program_index};
use crate::tree::{
    exprs_view, items_view, methods_view, AssignmentView, ClassView, CompilationUnit,
    CompilationUnitItem, DefId, Expr, ExprView, InvokeView, ItemView, Location, Method,
    MethodView,
};

verus! {

/// What the table holds of a function: its handle and the place where it is
/// named.
#[derive(Debug, Clone, Copy, PartialEq, Eq, Structural)]
pub struct FuncEntry {
    pub id: DefId,
    pub location: Location,
}

impl FuncEntry {
    /// The place of the function in its program.
    pub open spec fn site(self) -> Site {
        Site { unit: self.id.unit, location: self.location }
    }
}

/// The item `i` is a free function defined under `name`.
pub open spec fn is_func(items: Seq<ItemView>, i: int, name: Seq<char>) -> bool {
    0 <= i < items.len() && items[i] is Method && items[i].name().fragment == name
}

/// The position of the last free function defined under `name`, or -1 if
/// there is none.
pub open spec fn last_func(items: Seq<ItemView>, name: Seq<char>) -> int
    decreases items.len(),
{
    if items.len() == 0 {
        -1
    } else if is_func(items, items.len() - 1, name) {
        items.len() - 1
    } else {
        last_func(items.drop_last(), name)
    }
}

/// What the table holds of the free function at the position `i` of a unit.
pub open spec fn func_entry(items: Seq<ItemView>, i: int) -> FuncEntry {
    FuncEntry {
        id: DefId { unit: 0, item: i as usize },
        location: items[i].name().location(),
    }
}

/// The item `i` is a free function whose name is taken: the table has it
/// already, or a free function before `i` has it.
pub open spec fn name_taken(items: Seq<ItemView>, funcs: Map<Seq<char>, FuncEntry>, i: int) -> bool {
    &&& 0 <= i < items.len()
    &&& items[i] is Method
    &&& (funcs.contains_key(items[i].name().fragment) || last_func(
        items.take(i),
        items[i].name().fragment,
    ) >= 0)
}

/// No free function of the unit has a name that is taken.
pub open spec fn names_free(items: Seq<ItemView>, funcs: Map<Seq<char>, FuncEntry>) -> bool {
    forall|i: int| !name_taken(items, funcs, i)
}

/// The item `i` is the first free function, in source order, whose name is
/// taken.
pub open spec fn first_taken(items: Seq<ItemView>, funcs: Map<Seq<char>, FuncEntry>, i: int) -> bool {
    name_taken(items, funcs, i) && forall|k: int| 0 <= k < i ==> !name_taken(items, funcs, k)
}

/// The place of the definition that has the name of the item `i` before it:
/// that of the table, or that of the free function before `i`.
pub open spec fn holder(items: Seq<ItemView>, funcs: Map<Seq<char>, FuncEntry>, i: int) -> Site {
    if funcs.contains_key(items[i].name().fragment) {
        funcs[items[i].name().fragment].site()
    } else {
        func_entry(items, last_func(items.take(i), items[i].name().fragment)).site()
    }
}

/// The report of the name of the item `i` being taken.
pub open spec fn taken_report(
    items: Seq<ItemView>,
    funcs: Map<Seq<char>, FuncEntry>,
    i: int,
) -> DiagnosticView {
    DiagnosticView::DuplicateDefinition {
        name: items[i].name().fragment,
        first: holder(items, funcs, i),
        second: func_entry(items, i).site(),
    }
}

/// The table after the free functions of a unit are registered in `funcs`:
/// each name that a free function has is bound to the last function of that
/// name, and the other names are bound as before. Where no name is taken,
/// the last function of a name is the only one.
pub open spec fn registered(items: Seq<ItemView>, funcs: Map<Seq<char>, FuncEntry>) -> Map<
    Seq<char>,
    FuncEntry,
> {
    Map::new(
        |name: Seq<char>| funcs.contains_key(name) || last_func(items, name) >= 0,
        |name: Seq<char>|
            if last_func(items, name) >= 0 {
                func_entry(items, last_func(items, name))
            } else {
                funcs[name]
            },
    )
}

/// The function that a table has under a name.
pub open spec fn func_in(funcs: Map<Seq<char>, FuncEntry>, name: Seq<char>) -> Option<DefId> {
    if funcs.contains_key(name) {
        Some(funcs[name].id)
    } else {
        None
    }
}

/// A table of free functions: each name bound to one function.
pub struct FuncTable {
    funcs: StringHashMap<FuncEntry>,
}

impl View for FuncTable {
    type V = Map<Seq<char>, FuncEntry>;

    closed spec fn view(&self) -> Map<Seq<char>, FuncEntry> {
        self.funcs@
    }
}

impl FuncTable {
    /// A table without entries.
    pub fn new() -> (table: FuncTable)
        ensures
            table@ == Map::<Seq<char>, FuncEntry>::empty(),
    {
        FuncTable { funcs: StringHashMap::new() }
    }

    /// Binds `name` to `entry`, unless the table has the name already: then
    /// the table stays as it is, and the result is the report of the two
    /// definitions.
    pub fn insert(&mut self, name: String, entry: FuncEntry) -> (result: Result<(), Diagnostic>)
        ensures
            result is Ok <==> !old(self)@.contains_key(name@),
            match result {
                Ok(_) => final(self)@ == old(self)@.insert(name@, entry),
                Err(diagnostic) => final(self)@ == old(self)@ && diagnostic@ == (
                DiagnosticView::DuplicateDefinition {
                    name: name@,
                    first: old(self)@[name@].site(),
                    second: entry.site(),
                }),
            },
    {
        let held: Option<FuncEntry> = match self.funcs.get(name.as_str()) {
            Some(held) => Some(*held),
            None => None,
        };
        match held {
            Some(held) => Err(
                Diagnostic::DuplicateDefinition {
                    name,
                    first: Site { unit: held.id.unit, location: held.location },
                    second: Site { unit: entry.id.unit, location: entry.location },
                },
            ),
            None => {
                self.funcs.insert(name, entry);
                Ok(())
            },
        }
    }

    /// The function that the table has under `name`, if it has one.
    pub fn get(&self, name: &str) -> (id: Option<DefId>)
        ensures
            id == func_in(self@, name@),
    {
        match self.funcs.get(name) {
            Some(entry) => Some(entry.id),
            None => None,
        }
    }

    /// What the table holds under `name`, if it holds something.
    pub fn entry(&self, name: &str) -> (entry: Option<FuncEntry>)
        ensures
            entry == (if self@.contains_key(name@) {
                Some(self@[name@])
            } else {
                None
            }),
    {
        match self.funcs.get(name) {
            Some(entry) => Some(*entry),
            None => None,
        }
    }
}

/// The last function of a name is a function of that name, and none follows
/// it.
pub proof fn lemma_last_func(items: Seq<ItemView>, name: Seq<char>)
    ensures
        -1 <= last_func(items, name) < items.len(),
        last_func(items, name) >= 0 ==> is_func(items, last_func(items, name), name),
        forall|i: int| last_func(items, name) < i ==> !is_func(items, i, name),
    decreases items.len(),
{
    if items.len() > 0 && !is_func(items, items.len() - 1, name) {
        lemma_last_func(items.drop_last(), name);
        assert forall|i: int| last_func(items, name) < i implies !is_func(items, i, name) by {
            if i < items.len() - 1 {
                assert(!is_func(items.drop_last(), i, name));
            }
        }
    }
}

/// The last function of a name among the first `i + 1` items is the item
/// `i`, if that is a function of the name, and else the last among the
/// first `i`.
pub proof fn lemma_last_func_step(items: Seq<ItemView>, i: int, name: Seq<char>)
    requires
        0 <= i < items.len(),
    ensures
        last_func(items.take(i + 1), name) == (if is_func(items, i, name) {
            i
        } else {
            last_func(items.take(i), name)
        }),
{
    assert(items.take(i + 1).drop_last() =~= items.take(i));
    assert(items.take(i + 1)[i] == items[i]);
}

/// Records every free function of the unit in `funcs` under its name.
///
/// Nothing is recorded where a name is taken, by the table or by an earlier
/// function of the unit: the table stays as it is, and the result is the
/// report of the first function, in source order, whose name is taken, with
/// the place of the definition that has the name.
pub fn register_funcs(root: &CompilationUnit, funcs: &mut FuncTable) -> (result: Result<
    (),
    Diagnostic,
>)
    ensures
        result is Ok <==> names_free(root@, old(funcs)@),
        match result {
            Ok(_) => final(funcs)@ == registered(root@, old(funcs)@),
            Err(diagnostic) => final(funcs)@ == old(funcs)@ && exists|i: int|
                first_taken(root@, old(funcs)@, i) && diagnostic@ == taken_report(
                    root@,
                    old(funcs)@,
                    i,
                ),
        },
{
    let ghost items = root@;
    let n: usize = root.items.len();
    let mut seen: StringHashMap<usize> = StringHashMap::new();
    let mut i: usize = 0;
    while i < n
        invariant
            i <= n,
            n == root.items@.len(),
            items == root@,
            funcs@ == old(funcs)@,
            forall|k: int| 0 <= k < i ==> !name_taken(items, funcs@, k),
            forall|name: Seq<char>|
                #![trigger seen@.contains_key(name)]
                seen@.contains_key(name) <==> last_func(items.take(i as int), name) >= 0,
            forall|name: Seq<char>|
                #![trigger seen@.contains_key(name)]
                seen@.contains_key(name) ==> seen@[name] == last_func(items.take(i as int), name),
        decreases n - i,
    {
        proof {
            assert(items[i as int] == root.items@[i as int]@);
            assert forall|name: Seq<char>|
                last_func(items.take(i + 1), name) == (if is_func(items, i as int, name) {
                    i as int
                } else {
                    last_func(items.take(i as int), name)
                }) by {
                lemma_last_func_step(items, i as int, name);
            }
        }
        let ghost before = seen@;
        match &root.items[i] {
            CompilationUnitItem::Method(func) => {
                let name = &func.name;
                proof {
                    lemma_last_func(items.take(i as int), name@.fragment);
                }
                match funcs.entry(name.fragment.as_str()) {
                    Some(held) => {
                        assert(first_taken(items, funcs@, i as int));
                        return Err(
                            Diagnostic::DuplicateDefinition {
                                name: name.fragment.clone(),
                                first: Site { unit: held.id.unit, location: held.location },
                                second: Site { unit: 0, location: name.location() },
                            },
                        );
                    },
                    None => {},
                }
                let earlier: Option<usize> = match seen.get(name.fragment.as_str()) {
                    Some(earlier) => Some(*earlier),
                    None => None,
                };
                match earlier {
                    Some(earlier) => {
                        assert(first_taken(items, funcs@, i as int));
                        assert(items.take(i as int)[earlier as int] == items[earlier as int]);
                        assert(items[earlier as int] == root.items@[earlier as int]@);
                        let first = root.items[earlier].name();
                        return Err(
                            Diagnostic::DuplicateDefinition {
                                name: name.fragment.clone(),
                                first: Site { unit: 0, location: first.location() },
                                second: Site { unit: 0, location: name.location() },
                            },
                        );
                    },
                    None => {},
                }
                seen.insert(name.fragment.clone(), i);
            },
            CompilationUnitItem::Class(_) => {},
        }
        assert forall|name: Seq<char>|
            #![trigger seen@.contains_key(name)]
            (seen@.contains_key(name) <==> last_func(items.take(i + 1), name) >= 0) && (
            seen@.contains_key(name) ==> seen@[name] == last_func(items.take(i + 1), name)) by {
            lemma_last_func_step(items, i as int, name);
            lemma_last_func(items.take(i as int), name);
            if before.contains_key(name) {
                assert(before[name] == last_func(items.take(i as int), name));
            }
        }
        i += 1;
    }
    assert(names_free(items, funcs@));
    let mut i: usize = 0;
    assert(funcs@ =~= registered(items.take(0), old(funcs)@));
    while i < n
        invariant
            i <= n,
            n == root.items@.len(),
            items == root@,
            funcs@ == registered(items.take(i as int), old(funcs)@),
        decreases n - i,
    {
        proof {
            assert(items.take(i + 1).drop_last() =~= items.take(i as int));
            assert(items.take(i + 1)[i as int] == root.items@[i as int]@);
            assert forall|name: Seq<char>|
                last_func(items.take(i as int), name) >= 0 implies func_entry(
                items.take(i + 1),
                last_func(items.take(i as int), name),
            ) == func_entry(items.take(i as int), last_func(items.take(i as int), name)) by {
                lemma_last_func(items.take(i as int), name);
            }
        }
        match &root.items[i] {
            CompilationUnitItem::Method(func) => {
                funcs.funcs.insert(
                    func.name.fragment.clone(),
                    FuncEntry { id: DefId { unit: 0, item: i }, location: func.name.location() },
                );
            },
            CompilationUnitItem::Class(_) => {},
        }
        assert(funcs@ =~= registered(items.take(i + 1), old(funcs)@));
        i += 1;
    }
    assert(items.take(n as int) =~= items);
    Ok(())
}

/// An expression after linking through `funcs`: every call in it, its
/// receiver, its arguments and the right-hand side of an assignment
/// included, is linked to the function that the table has under its name,
/// and is left without a link where the table has none.
pub open spec fn hydrated_expr(expr: ExprView, funcs: Map<Seq<char>, FuncEntry>) -> ExprView
    decreases expr,
{
    match expr {
        ExprView::Invoke(invoke) => ExprView::Invoke(
            Box::new(
                InvokeView {
                    invoker_opt: match invoke.invoker_opt {
                        Some(invoker) => Some(hydrated_expr(invoker, funcs)),
                        None => None,
                    },
                    name: invoke.name,
                    args: hydrated_exprs(invoke.args, funcs),
                    method_def: func_in(funcs, invoke.name.fragment),
                },
            ),
        ),
        ExprView::Assignment(assignment) => ExprView::Assignment(
            Box::new(
                AssignmentView {
                    var: assignment.var,
                    expr: hydrated_expr(assignment.expr, funcs),
                },
            ),
        ),
        _ => expr,
    }
}

/// Expressions after linking through `funcs`, each as [`hydrated_expr`]
/// says.
pub open spec fn hydrated_exprs(exprs: Seq<ExprView>, funcs: Map<Seq<char>, FuncEntry>) -> Seq<
    ExprView,
>
    decreases exprs,
{
    Seq::new(
        exprs.len(),
        |i: int|
            if 0 <= i < exprs.len() {
                hydrated_expr(exprs[i], funcs)
            } else {
                arbitrary()
            },
    )
}

/// What linking an expression reports: one diagnostic for each call whose
/// name the table lacks, in the order receiver, call, arguments.
pub open spec fn unlinked_calls(expr: ExprView, funcs: Map<Seq<char>, FuncEntry>) -> Seq<
    DiagnosticView,
>
    decreases expr,
{
    match expr {
        ExprView::Invoke(invoke) => (match invoke.invoker_opt {
            Some(invoker) => unlinked_calls(invoker, funcs),
            None => Seq::empty(),
        }) + (if func_in(funcs, invoke.name.fragment) is None {
            seq![
                DiagnosticView::UnresolvedCall {
                    name: invoke.name.fragment,
                    location: invoke.name.location(),
                },
            ]
        } else {
            Seq::empty()
        }) + unlinked_calls_of(invoke.args, funcs),
        ExprView::Assignment(assignment) => unlinked_calls(assignment.expr, funcs),
        _ => Seq::empty(),
    }
}

/// What linking expressions reports, first to last.
pub open spec fn unlinked_calls_of(exprs: Seq<ExprView>, funcs: Map<Seq<char>, FuncEntry>) -> Seq<
    DiagnosticView,
>
    decreases exprs,
{
    if exprs.len() == 0 {
        Seq::empty()
    } else {
        unlinked_calls_of(exprs.drop_last(), funcs) + unlinked_calls(exprs.last(), funcs)
    }
}

/// A method after linking: every call of its body is linked.
pub open spec fn hydrated_func(func: MethodView, funcs: Map<Seq<char>, FuncEntry>) -> MethodView {
    MethodView {
        name: func.name,
        params: func.params,
        exprs: hydrated_exprs(func.exprs, funcs),
        return_type: func.return_type,
        parent_class: func.parent_class,
    }
}

/// Methods after linking, each as [`hydrated_func`] says.
pub open spec fn hydrated_methods(methods: Seq<MethodView>, funcs: Map<Seq<char>, FuncEntry>) -> Seq<
    MethodView,
> {
    Seq::new(methods.len(), |i: int| hydrated_func(methods[i], funcs))
}

/// What linking methods reports, first to last.
pub open spec fn unlinked_calls_of_methods(
    methods: Seq<MethodView>,
    funcs: Map<Seq<char>, FuncEntry>,
) -> Seq<DiagnosticView>
    decreases methods.len(),
{
    if methods.len() == 0 {
        Seq::empty()
    } else {
        unlinked_calls_of_methods(methods.drop_last(), funcs) + unlinked_calls_of(
            methods.last().exprs,
            funcs,
        )
    }
}

/// An item after linking: a free function and the methods of a class alike.
pub open spec fn hydrated_item(item: ItemView, funcs: Map<Seq<char>, FuncEntry>) -> ItemView {
    match item {
        ItemView::Method(func) => ItemView::Method(hydrated_func(func, funcs)),
        ItemView::Class(class) => ItemView::Class(
            ClassView {
                name: class.name,
                params: class.params,
                methods: hydrated_methods(class.methods, funcs),
            },
        ),
    }
}

/// What linking an item reports.
pub open spec fn unlinked_calls_of_item(item: ItemView, funcs: Map<Seq<char>, FuncEntry>) -> Seq<
    DiagnosticView,
> {
    match item {
        ItemView::Method(func) => unlinked_calls_of(func.exprs, funcs),
        ItemView::Class(class) => unlinked_calls_of_methods(class.methods, funcs),
    }
}

/// A unit after linking: every call of it is linked through the table.
pub open spec fn hydrated(items: Seq<ItemView>, funcs: Map<Seq<char>, FuncEntry>) -> Seq<ItemView> {
    Seq::new(items.len(), |i: int| hydrated_item(items[i], funcs))
}

/// What linking a unit reports, in source order.
pub open spec fn unlinked_calls_of_items(items: Seq<ItemView>, funcs: Map<Seq<char>, FuncEntry>) -> Seq<
    DiagnosticView,
>
    decreases items.len(),
{
    if items.len() == 0 {
        Seq::empty()
    } else {
        unlinked_calls_of_items(items.drop_last(), funcs) + unlinked_calls_of_item(
            items.last(),
            funcs,
        )
    }
}

/// Links every call of an expression through the table and reports the
/// calls whose name the table lacks.
pub fn hydrate_expr(expr: &mut Expr, funcs: &FuncTable, diagnostics: &mut Vec<Diagnostic>)
    ensures
        final(expr)@ == hydrated_expr(old(expr)@, funcs@),
        diagnostics_view(final(diagnostics)@) == diagnostics_view(old(diagnostics)@)
            + unlinked_calls(old(expr)@, funcs@),
    decreases *old(expr),
{
    match expr {
        Expr::Invoke(invoke) => {
            match &mut invoke.invoker_opt {
                Some(invoker) => {
                    hydrate_expr(invoker, funcs, diagnostics);
                },
                None => {},
            }
            match funcs.get(invoke.name.fragment.as_str()) {
                Some(id) => {
                    invoke.method_def = Some(id);
                },
                None => {
                    invoke.method_def = None;
                    let diagnostic = Diagnostic::UnresolvedCall {
                        name: invoke.name.fragment.clone(),
                        location: invoke.name.location(),
                    };
                    proof {
                        lemma_diagnostics_view_push(diagnostics@, diagnostic);
                    }
                    diagnostics.push(diagnostic);
                },
            }
            hydrate_exprs(&mut invoke.args, funcs, diagnostics);
            assert(diagnostics_view(diagnostics@) =~= diagnostics_view(old(diagnostics)@)
                + unlinked_calls(old(expr)@, funcs@));
        },
        Expr::Assignment(assignment) => {
            hydrate_expr(&mut assignment.expr, funcs, diagnostics);
        },
        _ => {
            assert(diagnostics_view(diagnostics@) =~= diagnostics_view(old(diagnostics)@)
                + unlinked_calls(old(expr)@, funcs@));
        },
    }
}

/// Links every call of a sequence of expressions, first to last.
pub fn hydrate_exprs(exprs: &mut Vec<Expr>, funcs: &FuncTable, diagnostics: &mut Vec<Diagnostic>)
    ensures
        exprs_view(final(exprs)@) == hydrated_exprs(exprs_view(old(exprs)@), funcs@),
        diagnostics_view(final(diagnostics)@) == diagnostics_view(old(diagnostics)@)
            + unlinked_calls_of(exprs_view(old(exprs)@), funcs@),
    decreases *old(exprs),
{
    let ghost source = exprs_view(old(exprs)@);
    let n: usize = exprs.len();
    let mut i: usize = 0;
    assert(source.take(0) =~= Seq::empty());
    assert(diagnostics_view(diagnostics@) =~= diagnostics_view(old(diagnostics)@)
        + unlinked_calls_of(source.take(0), funcs@));
    while i < n
        invariant
            i <= n,
            n == exprs@.len(),
            n == old(exprs)@.len(),
            source == exprs_view(old(exprs)@),
            forall|j: int| i <= j < n ==> exprs@[j] == old(exprs)@[j],
            forall|j: int| 0 <= j < i ==> #[trigger] exprs@[j]@ == hydrated_expr(source[j], funcs@),
            diagnostics_view(diagnostics@) == diagnostics_view(old(diagnostics)@)
                + unlinked_calls_of(source.take(i as int), funcs@),
        decreases n - i,
    {
        proof {
            assert(source.take(i + 1).drop_last() =~= source.take(i as int));
            assert(source.take(i + 1).last() == source[i as int]);
            assert(source[i as int] == exprs@[i as int]@);
        }
        hydrate_expr(&mut exprs[i], funcs, diagnostics);
        assert(diagnostics_view(diagnostics@) =~= diagnostics_view(old(diagnostics)@)
            + unlinked_calls_of(source.take(i + 1), funcs@));
        i += 1;
    }
    assert(source.take(n as int) =~= source);
    assert forall|j: int| 0 <= j < n implies exprs_view(exprs@)[j] == hydrated_exprs(
        source,
        funcs@,
    )[j] by {
        assert(exprs@[j]@ == hydrated_expr(source[j], funcs@));
    }
    assert(exprs_view(exprs@) =~= hydrated_exprs(source, funcs@));
}

/// Links every call of the methods, first to last.
fn hydrate_methods(methods: &mut Vec<Method>, funcs: &FuncTable, diagnostics: &mut Vec<Diagnostic>)
    ensures
        methods_view(final(methods)@) == hydrated_methods(methods_view(old(methods)@), funcs@),
        diagnostics_view(final(diagnostics)@) == diagnostics_view(old(diagnostics)@)
            + unlinked_calls_of_methods(methods_view(old(methods)@), funcs@),
{
    let ghost source = methods_view(old(methods)@);
    let n: usize = methods.len();
    let mut i: usize = 0;
    assert(source.take(0) =~= Seq::empty());
    assert(diagnostics_view(diagnostics@) =~= diagnostics_view(old(diagnostics)@)
        + unlinked_calls_of_methods(source.take(0), funcs@));
    while i < n
        invariant
            i <= n,
            n == methods@.len(),
            n == old(methods)@.len(),
            source == methods_view(old(methods)@),
            forall|j: int| i <= j < n ==> methods@[j] == old(methods)@[j],
            forall|j: int|
                0 <= j < i ==> #[trigger] methods@[j]@ == hydrated_func(source[j], funcs@),
            diagnostics_view(diagnostics@) == diagnostics_view(old(diagnostics)@)
                + unlinked_calls_of_methods(source.take(i as int), funcs@),
        decreases n - i,
    {
        proof {
            assert(source.take(i + 1).drop_last() =~= source.take(i as int));
            assert(source.take(i + 1).last() == source[i as int]);
            assert(source[i as int] == methods@[i as int]@);
        }
        hydrate_exprs(&mut methods[i].exprs, funcs, diagnostics);
        assert(diagnostics_view(diagnostics@) =~= diagnostics_view(old(diagnostics)@)
            + unlinked_calls_of_methods(source.take(i + 1), funcs@));
        i += 1;
    }
    assert(source.take(n as int) =~= source);
    assert forall|j: int| 0 <= j < n implies methods_view(methods@)[j] == hydrated_methods(
        source,
        funcs@,
    )[j] by {
        assert(methods@[j]@ == hydrated_func(source[j], funcs@));
    }
    assert(methods_view(methods@) =~= hydrated_methods(source, funcs@));
}

/// Links every call of the unit through the table, in free functions and in
/// the methods of classes, at any depth. The result reports, in source
/// order, each call whose name the table lacks; such a call is left without
/// a link.
pub fn hydrate_funcs(root: &mut CompilationUnit, funcs: &FuncTable) -> (diagnostics: Vec<Diagnostic>)
    ensures
        final(root)@ == hydrated(old(root)@, funcs@),
        diagnostics_view(diagnostics@) == unlinked_calls_of_items(old(root)@, funcs@),
{
    let ghost source = root@;
    let mut diagnostics: Vec<Diagnostic> = Vec::new();
    let n: usize = root.items.len();
    let mut i: usize = 0;
    assert(source.take(0) =~= Seq::empty());
    assert(diagnostics_view(diagnostics@) =~= unlinked_calls_of_items(source.take(0), funcs@));
    while i < n
        invariant
            i <= n,
            n == root.items@.len(),
            n == old(root).items@.len(),
            source == old(root)@,
            forall|j: int| i <= j < n ==> root.items@[j] == old(root).items@[j],
            forall|j: int|
                0 <= j < i ==> #[trigger] root.items@[j]@ == hydrated_item(source[j], funcs@),
            diagnostics_view(diagnostics@) == unlinked_calls_of_items(
                source.take(i as int),
                funcs@,
            ),
        decreases n - i,
    {
        proof {
            assert(source.take(i + 1).drop_last() =~= source.take(i as int));
            assert(source.take(i + 1).last() == source[i as int]);
            assert(source[i as int] == root.items@[i as int]@);
        }
        match &mut root.items[i] {
            CompilationUnitItem::Method(func) => {
                hydrate_exprs(&mut func.exprs, funcs, &mut diagnostics);
            },
            CompilationUnitItem::Class(class) => {
                hydrate_methods(&mut class.methods, funcs, &mut diagnostics);
            },
        }
        assert(diagnostics_view(diagnostics@) =~= unlinked_calls_of_items(
            source.take(i + 1),
            funcs@,
        ));
        i += 1;
    }
    assert(source.take(n as int) =~= source);
    assert forall|j: int| 0 <= j < n implies items_view(root.items@)[j] == hydrated(
        source,
        funcs@,
    )[j] by {
        assert(root.items@[j]@ == hydrated_item(source[j], funcs@));
    }
    assert(root@ =~= hydrated(source, funcs@));
    diagnostics
}

/// Where the names of a unit are distinct, its free functions can be
/// registered in an empty table, and the table then holds exactly the
/// methods of the index of the one-unit program: a name has a function in
/// the table if and only if the index binds it to a method, and then to the
/// same one.
pub proof fn law_call_table_agrees_with_index(unit: Seq<ItemView>, name: Seq<char>)
    requires
        unit.len() <= usize::MAX,
        distinct_names(seq![unit]),
    ensures
        names_free(unit, Map::empty()),
        func_in(registered(unit, Map::empty()), name) == method_in(program_index(seq![unit]), name),
{
    let program = seq![unit];
    let index = program_index(program);
    lemma_last_func(unit, name);
    let last = last_func(unit, name);
    if last >= 0 {
        let id = DefId { unit: 0, item: last as usize };
        assert(defines(program, id, name));
        let chosen = choose|id: DefId| defines(program, id, name);
        assert(in_program(program, chosen) && in_program(program, id));
        assert(chosen == id);
    } else if index.contains_key(name) {
        let chosen = choose|id: DefId| defines(program, id, name);
        assert(!is_func(unit, chosen.item as int, name));
    }
    assert forall|i: int| !name_taken(unit, Map::<Seq<char>, FuncEntry>::empty(), i) by {
        if 0 <= i < unit.len() && unit[i] is Method {
            let taken = unit[i].name().fragment;
            lemma_last_func(unit.take(i), taken);
            let j = last_func(unit.take(i), taken);
            if j >= 0 {
                assert(unit.take(i)[j] == unit[j]);
                let a = DefId { unit: 0, item: i as usize };
                let b = DefId { unit: 0, item: j as usize };
                assert(in_program(program, a) && in_program(program, b));
            }
        }
    }
}

/// Two free functions of one name cannot both be registered: the second has
/// a name that is taken, whatever the table held before.
pub proof fn law_shared_name_is_refused(
    unit: Seq<ItemView>,
    funcs: Map<Seq<char>, FuncEntry>,
    first: int,
    second: int,
)
    requires
        0 <= first < second < unit.len(),
        unit[first] is Method,
        unit[second] is Method,
        unit[first].name().fragment == unit[second].name().fragment,
    ensures
        name_taken(unit, funcs, second),
        !names_free(unit, funcs),
{
    let name = unit[second].name().fragment;
    lemma_last_func(unit.take(second), name);
    assert(is_func(unit.take(second), first, name));
    assert(name_taken(unit, funcs, second));
}

} // verus!
