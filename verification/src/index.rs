//! The index of a program: every top-level definition under its name.
//!
//! The index is built once, from all compilation units, before any of them is
//! resolved. A definition can therefore be found from any place of the
//! program, whether it stands before or after that place, in the same unit or
//! in another one.
use vstd::prelude::*;
use vstd::hash_map::StringHashMap;
use vstd::pervasive::unreached;
use crate::diagnostic::{Diagnostic, DiagnosticView, Site};
use crate::tree::{CompilationUnitItem, Def, DefId, ItemView, LilitFile};

verus! {

/// A program as the index sees it: the items of each compilation unit.
pub open spec fn program_view(files: Seq<LilitFile>) -> Seq<Seq<ItemView>> {
    Seq::new(files.len(), |u: int| files[u]@)
}

/// `id` is the handle of an item of the program.
pub open spec fn in_program(program: Seq<Seq<ItemView>>, id: DefId) -> bool {
    0 <= id.unit < program.len() && 0 <= id.item < program[id.unit as int].len()
}

/// The item with the handle `id`.
pub open spec fn item_at(program: Seq<Seq<ItemView>>, id: DefId) -> ItemView {
    program[id.unit as int][id.item as int]
}

/// The name of the item with the handle `id`.
pub open spec fn name_at(program: Seq<Seq<ItemView>>, id: DefId) -> Seq<char> {
    item_at(program, id).name().fragment
}

/// The place where the item with the handle `id` is named.
pub open spec fn site_at(program: Seq<Seq<ItemView>>, id: DefId) -> Site {
    Site { unit: id.unit, location: item_at(program, id).name().location() }
}

/// The item with the handle `id` is defined under `name`.
pub open spec fn defines(program: Seq<Seq<ItemView>>, id: DefId, name: Seq<char>) -> bool {
    in_program(program, id) && name_at(program, id) == name
}

/// Source order: `a` stands in an earlier unit than `b`, or earlier in the
/// same unit.
pub open spec fn precedes(a: DefId, b: DefId) -> bool {
    a.unit < b.unit || (a.unit == b.unit && a.item < b.item)
}

/// No two items of the program have the same name.
pub open spec fn distinct_names(program: Seq<Seq<ItemView>>) -> bool {
    forall|a: DefId, b: DefId|
        #![trigger in_program(program, a), in_program(program, b)]
        in_program(program, a) && in_program(program, b) && name_at(program, a) == name_at(
            program,
            b,
        ) ==> a == b
}

/// The table of a program: each name that an item has, bound to that item.
pub open spec fn program_index(program: Seq<Seq<ItemView>>) -> Map<Seq<char>, Def> {
    Map::new(
        |name: Seq<char>| exists|id: DefId| defines(program, id, name),
        |name: Seq<char>|
            {
                let id = choose|id: DefId| defines(program, id, name);
                item_at(program, id).def(id)
            },
    )
}

/// `second` is the first item, in source order, whose name an earlier item
/// has, and `first` is that earlier item.
pub open spec fn first_collision(program: Seq<Seq<ItemView>>, first: DefId, second: DefId) -> bool {
    &&& in_program(program, first)
    &&& in_program(program, second)
    &&& precedes(first, second)
    &&& name_at(program, first) == name_at(program, second)
    &&& forall|a: DefId, b: DefId|
        #![trigger in_program(program, a), in_program(program, b)]
        in_program(program, a) && in_program(program, b) && precedes(a, b) && precedes(b, second)
            ==> name_at(program, a) != name_at(program, b)
}

/// The class that a table binds `name` to.
pub open spec fn class_in(index: Map<Seq<char>, Def>, name: Seq<char>) -> Option<DefId> {
    if index.contains_key(name) {
        match index[name] {
            Def::Class(id) => Some(id),
            _ => None,
        }
    } else {
        None
    }
}

/// The method that a table binds `name` to.
pub open spec fn method_in(index: Map<Seq<char>, Def>, name: Seq<char>) -> Option<DefId> {
    if index.contains_key(name) {
        match index[name] {
            Def::Method(id) => Some(id),
            _ => None,
        }
    } else {
        None
    }
}

/// `names` holds the keys of `table`, each once.
spec fn lists(table: Map<Seq<char>, Def>, names: Seq<String>) -> bool {
    &&& forall|name: Seq<char>|
        table.contains_key(name) <==> exists|k: int|
            0 <= k < names.len() && #[trigger] names[k]@ == name
    &&& forall|j: int, k: int|
        0 <= j < k < names.len() ==> #[trigger] names[j]@ != #[trigger] names[k]@
}

/// The index of a program. Its view is the table from names to definitions.
pub struct Root {
    names: Vec<String>,
    by_name: StringHashMap<Def>,
}

impl View for Root {
    type V = Map<Seq<char>, Def>;

    closed spec fn view(&self) -> Map<Seq<char>, Def> {
        self.by_name@
    }
}

impl Root {
    #[verifier::type_invariant]
    spec fn listed(&self) -> bool {
        lists(self.by_name@, self.names@)
    }

    /// The class defined under `name`, if there is one.
    pub fn find_class(&self, name: &str) -> (class: Option<DefId>)
        ensures
            class == class_in(self@, name@),
    {
        match self.by_name.get(name) {
            Some(Def::Class(id)) => Some(*id),
            _ => None,
        }
    }

    /// The method defined under `name`, if there is one.
    pub fn find_method(&self, name: &str) -> (method: Option<DefId>)
        ensures
            method == method_in(self@, name@),
    {
        match self.by_name.get(name) {
            Some(Def::Method(id)) => Some(*id),
            _ => None,
        }
    }

    /// The definition under `name`, class or method, if there is one.
    pub fn find(&self, name: &str) -> (def: Option<Def>)
        ensures
            def == (if self@.contains_key(name@) {
                Some(self@[name@])
            } else {
                None
            }),
    {
        match self.by_name.get(name) {
            Some(def) => Some(*def),
            None => None,
        }
    }

    /// The names that the index binds. Each stands in the list once.
    pub fn names(&self) -> (names: &Vec<String>)
        ensures
            forall|name: Seq<char>|
                self@.contains_key(name) <==> exists|k: int|
                    0 <= k < names@.len() && #[trigger] names@[k]@ == name,
            forall|j: int, k: int|
                0 <= j < k < names@.len() ==> #[trigger] names@[j]@ != #[trigger] names@[k]@,
    {
        proof {
            use_type_invariant(self);
        }
        &self.names
    }

    /// A map with the bindings of the index, to be the outermost level of a
    /// scope.
    pub fn level(&self) -> (level: StringHashMap<Def>)
        ensures
            level@ == self@,
    {
        proof {
            use_type_invariant(self);
        }
        let mut level: StringHashMap<Def> = StringHashMap::new();
        let n: usize = self.names.len();
        let mut k: usize = 0;
        while k < n
            invariant
                k <= n,
                n == self.names@.len(),
                lists(self.by_name@, self.names@),
                forall|name: Seq<char>|
                    level@.contains_key(name) <==> exists|j: int|
                        0 <= j < k && #[trigger] self.names@[j]@ == name,
                forall|name: Seq<char>|
                    level@.contains_key(name) ==> level@[name] == self.by_name@[name],
            decreases n - k,
        {
            let name: &String = &self.names[k];
            let ghost before = level@;
            match self.by_name.get(name.as_str()) {
                Some(def) => {
                    level.insert(name.clone(), *def);
                },
                None => {
                    assert(self.names@[k as int]@ == name@);
                    assert(self.by_name@.contains_key(name@));
                },
            }
            assert forall|other: Seq<char>| level@.contains_key(other) <==> exists|j: int|
                0 <= j < k + 1 && #[trigger] self.names@[j]@ == other by {
                if level@.contains_key(other) {
                    if other == name@ {
                        assert(self.names@[k as int]@ == other);
                    } else {
                        assert(before.contains_key(other));
                        let j = choose|j: int| 0 <= j < k && #[trigger] self.names@[j]@ == other;
                        assert(0 <= j < k + 1 && self.names@[j]@ == other);
                    }
                }
                if exists|j: int| 0 <= j < k + 1 && #[trigger] self.names@[j]@ == other {
                    let j = choose|j: int| 0 <= j < k + 1 && #[trigger] self.names@[j]@ == other;
                    if j < k {
                        assert(before.contains_key(other));
                    }
                }
            }
            k += 1;
        }
        assert(level@ =~= self.by_name@);
        level
    }
}

/// The item that a handle stands for, if the program has such an item.
pub fn definition(files: &[LilitFile], id: DefId) -> (item: Option<&CompilationUnitItem>)
    ensures
        item is Some <==> in_program(program_view(files@), id),
        item matches Some(item) ==> item@ == item_at(program_view(files@), id),
{
    if id.unit < files.len() {
        let unit = &files[id.unit].unit;
        if id.item < unit.items.len() {
            return Some(&unit.items[id.item]);
        }
    }
    None
}

/// Builds the index of a program.
///
/// The items are taken in source order, unit by unit. The result is the table
/// of the program if no two items have the same name. Otherwise it is the
/// report of the first item whose name was already taken, with the places of
/// both definitions.
pub fn build(files: &[LilitFile]) -> (result: Result<Root, Diagnostic>)
    ensures
        result is Ok <==> distinct_names(program_view(files@)),
        match result {
            Ok(root) => root@ == program_index(program_view(files@)),
            Err(diagnostic) => exists|first: DefId, second: DefId|
                first_collision(program_view(files@), first, second) && diagnostic@ == (
                DiagnosticView::DuplicateDefinition {
                    name: name_at(program_view(files@), second),
                    first: site_at(program_view(files@), first),
                    second: site_at(program_view(files@), second),
                }),
        },
{
    let ghost program = program_view(files@);
    let mut names: Vec<String> = Vec::new();
    let mut by_name: StringHashMap<Def> = StringHashMap::new();
    let n: usize = files.len();
    let mut u: usize = 0;
    while u < n
        invariant
            u <= n,
            n == files@.len(),
            program == program_view(files@),
            collected(program, DefId { unit: u, item: 0 }, by_name@, names@),
        decreases n - u,
    {
        let file: &LilitFile = &files[u];
        let m: usize = file.unit.items.len();
        let mut i: usize = 0;
        while i < m
            invariant
                i <= m,
                u < n,
                n == files@.len(),
                file == files@[u as int],
                m == file.unit.items@.len(),
                program == program_view(files@),
                collected(program, DefId { unit: u, item: i }, by_name@, names@),
            decreases m - i,
        {
            let here = DefId { unit: u, item: i };
            let item = &file.unit.items[i];
            let name = item.name();
            assert(in_program(program, here));
            assert(item_at(program, here) == item@);
            match by_name.get(name.fragment.as_str()) {
                Some(def) => {
                    let earlier: DefId = match def {
                        Def::Class(id) => *id,
                        Def::Method(id) => *id,
                        Def::Local(_) => {
                            proof {
                                let id = choose|id: DefId|
                                    in_program(program, id) && precedes(id, here) && name_at(
                                        program,
                                        id,
                                    ) == name@.fragment;
                                assert(by_name@[name@.fragment] == item_at(program, id).def(id));
                            }
                            unreached()
                        },
                    };
                    proof {
                        let id = choose|id: DefId|
                            in_program(program, id) && precedes(id, here) && name_at(program, id)
                                == name@.fragment;
                        assert(by_name@[name@.fragment] == item_at(program, id).def(id));
                        assert(id == earlier);
                        assert(first_collision(program, earlier, here));
                        assert(!distinct_names(program));
                    }
                    let first_name = files[earlier.unit].unit.items[earlier.item].name();
                    return Err(
                        Diagnostic::DuplicateDefinition {
                            name: name.fragment.clone(),
                            first: Site { unit: earlier.unit, location: first_name.location() },
                            second: Site { unit: u, location: name.location() },
                        },
                    );
                },
                None => {},
            }
            let ghost table = by_name@;
            let ghost listed = names@;
            by_name.insert(name.fragment.clone(), item.def(here));
            names.push(name.fragment.clone());
            proof {
                let next = DefId { unit: u, item: (i + 1) as usize };
                assert(names@.drop_last() =~= listed);
                lemma_collect(program, here, next, table, listed, by_name@, names@);
            }
            i += 1;
        }
        proof {
            lemma_collected_next_unit(program, u, by_name@, names@);
        }
        u += 1;
    }
    proof {
        lemma_collected_all(program, by_name@, names@);
        assert(lists(by_name@, names@));
    }
    Ok(Root { names, by_name })
}

/// `table` and `listed` hold exactly the items of the program that stand
/// before `next`, and those have distinct names.
spec fn collected(
    program: Seq<Seq<ItemView>>,
    next: DefId,
    table: Map<Seq<char>, Def>,
    listed: Seq<String>,
) -> bool {
    &&& forall|id: DefId|
        #![trigger in_program(program, id)]
        in_program(program, id) && precedes(id, next) ==> table.contains_key(name_at(program, id))
            && table[name_at(program, id)] == item_at(program, id).def(id)
    &&& forall|name: Seq<char>| #[trigger]
        table.contains_key(name) ==> exists|id: DefId|
            in_program(program, id) && precedes(id, next) && name_at(program, id) == name
    &&& lists(table, listed)
}

proof fn lemma_collect(
    program: Seq<Seq<ItemView>>,
    here: DefId,
    next: DefId,
    table: Map<Seq<char>, Def>,
    listed: Seq<String>,
    table_after: Map<Seq<char>, Def>,
    listed_after: Seq<String>,
)
    requires
        in_program(program, here),
        next.unit == here.unit,
        next.item == here.item + 1,
        collected(program, here, table, listed),
        !table.contains_key(name_at(program, here)),
        table_after == table.insert(name_at(program, here), item_at(program, here).def(here)),
        listed_after.len() == listed.len() + 1,
        listed_after.drop_last() == listed,
        listed_after.last()@ == name_at(program, here),
    ensures
        collected(program, next, table_after, listed_after),
{
    let name = name_at(program, here);
    assert forall|id: DefId|
        #![trigger in_program(program, id)]
        in_program(program, id) && precedes(id, next) implies table_after.contains_key(
        name_at(program, id),
    ) && table_after[name_at(program, id)] == item_at(program, id).def(id) by {
        if id != here {
            assert(precedes(id, here));
            assert(table.contains_key(name_at(program, id)));
        }
    }
    assert forall|other: Seq<char>| #[trigger]
        table_after.contains_key(other) implies exists|id: DefId|
        in_program(program, id) && precedes(id, next) && name_at(program, id) == other by {
        if other == name {
            assert(in_program(program, here) && precedes(here, next));
        } else {
            assert(table.contains_key(other));
            let id = choose|id: DefId|
                in_program(program, id) && precedes(id, here) && name_at(program, id) == other;
            assert(in_program(program, id) && precedes(id, next));
        }
    }
    assert forall|other: Seq<char>|
        table_after.contains_key(other) <==> exists|k: int|
            0 <= k < listed_after.len() && #[trigger] listed_after[k]@ == other by {
        if table_after.contains_key(other) {
            if other == name {
                assert(listed_after[listed_after.len() - 1]@ == other);
            } else {
                assert(table.contains_key(other));
                let k = choose|k: int| 0 <= k < listed.len() && #[trigger] listed[k]@ == other;
                assert(listed_after[k] == listed[k]);
            }
        }
        if exists|k: int| 0 <= k < listed_after.len() && #[trigger] listed_after[k]@ == other {
            let k = choose|k: int|
                0 <= k < listed_after.len() && #[trigger] listed_after[k]@ == other;
            if k < listed.len() {
                assert(listed_after[k] == listed[k]);
                assert(table.contains_key(other));
            }
        }
    }
    assert forall|j: int, k: int| 0 <= j < k < listed_after.len() implies #[trigger] listed_after[j]@
        != #[trigger] listed_after[k]@ by {
        assert(listed_after[j] == listed[j]);
        if k < listed.len() {
            assert(listed_after[k] == listed[k]);
        } else {
            assert(table.contains_key(listed[j]@));
        }
    }
}

proof fn lemma_collected_next_unit(
    program: Seq<Seq<ItemView>>,
    u: usize,
    table: Map<Seq<char>, Def>,
    listed: Seq<String>,
)
    requires
        0 <= u < program.len(),
        u < usize::MAX,
        collected(program, DefId { unit: u, item: program[u as int].len() as usize }, table, listed),
        program[u as int].len() <= usize::MAX,
    ensures
        collected(program, DefId { unit: (u + 1) as usize, item: 0 }, table, listed),
{
    let end = DefId { unit: u, item: program[u as int].len() as usize };
    let next = DefId { unit: (u + 1) as usize, item: 0 };
    assert forall|id: DefId| in_program(program, id) implies (precedes(id, end) <==> precedes(
        id,
        next,
    )) by {}
    assert forall|name: Seq<char>| #[trigger]
        table.contains_key(name) implies exists|id: DefId|
        in_program(program, id) && precedes(id, next) && name_at(program, id) == name by {
        let id = choose|id: DefId|
            in_program(program, id) && precedes(id, end) && name_at(program, id) == name;
        assert(in_program(program, id) && precedes(id, next));
    }
}

proof fn lemma_collected_all(
    program: Seq<Seq<ItemView>>,
    table: Map<Seq<char>, Def>,
    listed: Seq<String>,
)
    requires
        program.len() <= usize::MAX,
        collected(program, DefId { unit: program.len() as usize, item: 0 }, table, listed),
    ensures
        distinct_names(program),
        table == program_index(program),
        lists(table, listed),
{
    let end = DefId { unit: program.len() as usize, item: 0 };
    assert forall|id: DefId| in_program(program, id) implies precedes(id, end) by {}
    assert forall|a: DefId, b: DefId|
        #![trigger in_program(program, a), in_program(program, b)]
        in_program(program, a) && in_program(program, b) && name_at(program, a) == name_at(
            program,
            b,
        ) implies a == b by {
        assert(table[name_at(program, a)] == item_at(program, a).def(a));
        assert(table[name_at(program, b)] == item_at(program, b).def(b));
    }
    assert forall|name: Seq<char>|
        table.contains_key(name) <==> program_index(program).contains_key(name) by {
        if table.contains_key(name) {
            let id = choose|id: DefId|
                in_program(program, id) && precedes(id, end) && name_at(program, id) == name;
            assert(defines(program, id, name));
        }
        if program_index(program).contains_key(name) {
            let id = choose|id: DefId| defines(program, id, name);
            assert(in_program(program, id) && precedes(id, end));
        }
    }
    assert forall|name: Seq<char>| table.contains_key(name) implies table[name] == program_index(
        program,
    )[name] by {
        let id = choose|id: DefId|
            in_program(program, id) && precedes(id, end) && name_at(program, id) == name;
        assert(defines(program, id, name));
        let chosen = choose|id: DefId| defines(program, id, name);
        assert(in_program(program, chosen) && in_program(program, id));
        assert(chosen == id);
    }
    assert(table =~= program_index(program));
}

} // verus!
