//! The chain of lexical scopes.
//!
//! A scope is a stack of levels, the innermost last. The outermost level
//! holds the definitions of the program; a level is pushed on the way into a
//! class or a method and popped on the way out. A name denotes what the
//! innermost level that binds it says.
use vstd::prelude::*;
use vstd::hash_map::StringHashMap;
use crate::index::Root;
use crate::tree::{Def, DefId};

verus! {

/// The model of a scope: its levels, outermost first, each a table from names
/// to bindings.
pub type Levels = Seq<Map<Seq<char>, Def>>;

/// What `name` denotes in a chain of levels: the binding of the innermost
/// level that has one.
pub open spec fn lookup(levels: Levels, name: Seq<char>) -> Option<Def>
    decreases levels.len(),
{
    if levels.len() == 0 {
        None
    } else if levels.last().contains_key(name) {
        Some(levels.last()[name])
    } else {
        lookup(levels.drop_last(), name)
    }
}

/// The chain after `name` is bound to `def` in its innermost level. A chain
/// without levels has no place for a binding and stays as it is.
pub open spec fn bind(levels: Levels, name: Seq<char>, def: Def) -> Levels {
    if levels.len() == 0 {
        levels
    } else {
        levels.update(levels.len() - 1, levels.last().insert(name, def))
    }
}

/// The class behind a binding, if the binding is one to a class.
pub open spec fn class_of(binding: Option<Def>) -> Option<DefId> {
    match binding {
        Some(Def::Class(id)) => Some(id),
        _ => None,
    }
}

/// The method behind a binding, if the binding is one to a method.
pub open spec fn method_of(binding: Option<Def>) -> Option<DefId> {
    match binding {
        Some(Def::Method(id)) => Some(id),
        _ => None,
    }
}

pub struct Scope {
    pub levels: Vec<StringHashMap<Def>>,
}

impl View for Scope {
    type V = Levels;

    open spec fn view(&self) -> Levels {
        Seq::new(self.levels@.len(), |i: int| self.levels@[i]@)
    }
}

impl Scope {
    /// A scope without levels.
    pub fn new() -> (scope: Scope)
        ensures
            scope@ == Seq::<Map<Seq<char>, Def>>::empty(),
    {
        let scope = Scope { levels: Vec::new() };
        assert(scope@ =~= Seq::<Map<Seq<char>, Def>>::empty());
        scope
    }

    /// The number of levels.
    pub fn depth(&self) -> (depth: usize)
        ensures
            depth == self@.len(),
    {
        self.levels.len()
    }

    /// Pushes a level that binds every name of the index to its definition.
    pub fn enter_root(&mut self, root: &Root)
        ensures
            final(self)@ == old(self)@.push(root@),
    {
        self.levels.push(root.level());
        assert(self@ =~= old(self)@.push(root@));
    }

    /// Pushes an empty level.
    pub fn enter(&mut self)
        ensures
            final(self)@ == old(self)@.push(Map::empty()),
    {
        self.levels.push(StringHashMap::new());
        assert(self@ =~= old(self)@.push(Map::empty()));
    }

    /// Pops the innermost level, and with it every binding made in it. A
    /// scope without levels stays as it is.
    pub fn leave(&mut self)
        ensures
            final(self)@ == (if old(self)@.len() == 0 {
                old(self)@
            } else {
                old(self)@.drop_last()
            }),
    {
        let _ = self.levels.pop();
        assert(self@ =~= (if old(self)@.len() == 0 {
            old(self)@
        } else {
            old(self)@.drop_last()
        }));
    }

    /// Binds `name` to `def` in the innermost level. A binding that the level
    /// has for `name` is replaced; the levels below are not touched. A scope
    /// without levels has no place for the binding and stays as it is.
    pub fn declare(&mut self, name: &str, def: Def)
        ensures
            final(self)@ == bind(old(self)@, name@, def),
    {
        let n: usize = self.levels.len();
        if n > 0 {
            self.levels[n - 1].insert(name.to_string(), def);
        }
        assert(self@ =~= bind(old(self)@, name@, def));
    }

    /// What `name` denotes: the binding of the innermost level that has one,
    /// or nothing if no level binds the name.
    pub fn read(&self, name: &str) -> (def: Option<Def>)
        ensures
            def == lookup(self@, name@),
    {
        let mut i: usize = self.levels.len();
        assert(self@.take(i as int) =~= self@);
        while i > 0
            invariant
                i <= self.levels@.len(),
                lookup(self@, name@) == lookup(self@.take(i as int), name@),
            decreases i,
        {
            i -= 1;
            proof {
                assert(self@.take(i + 1).last() == self@[i as int]);
                assert(self@.take(i + 1).drop_last() =~= self@.take(i as int));
            }
            match self.levels[i].get(name) {
                Some(def) => {
                    return Some(*def);
                },
                None => {},
            }
        }
        None
    }
}

/// A binding touches the innermost level only.
pub proof fn lemma_bind_frame(levels: Levels, name: Seq<char>, def: Def)
    ensures
        bind(levels, name, def).len() == levels.len(),
        bind(levels, name, def).drop_last() == levels.drop_last(),
{
    assert(bind(levels, name, def).drop_last() =~= levels.drop_last());
}

/// Reading goes from the innermost level outwards. A name denotes the
/// binding of a level exactly if that level binds it and no level further in
/// does; it denotes nothing exactly if no level binds it.
pub proof fn law_lookup_finds_the_innermost_binding(levels: Levels, name: Seq<char>)
    ensures
        match lookup(levels, name) {
            Some(def) => exists|i: int|
                0 <= i < levels.len() && #[trigger] levels[i].contains_key(name) && levels[i][name]
                    == def && forall|j: int|
                    i < j < levels.len() ==> !#[trigger] levels[j].contains_key(name),
            None => forall|i: int| 0 <= i < levels.len() ==> !#[trigger] levels[i].contains_key(name),
        },
    decreases levels.len(),
{
    if levels.len() == 0 {
    } else if levels.last().contains_key(name) {
        let i = levels.len() - 1;
        assert(levels[i].contains_key(name) && levels[i][name] == lookup(levels, name)->0);
    } else {
        law_lookup_finds_the_innermost_binding(levels.drop_last(), name);
        match lookup(levels, name) {
            Some(def) => {
                let below = levels.drop_last();
                let i = choose|i: int|
                    0 <= i < below.len() && #[trigger] below[i].contains_key(name) && below[i][name]
                        == def && forall|j: int|
                        i < j < below.len() ==> !#[trigger] below[j].contains_key(name);
                assert(levels[i] == below[i]);
                assert forall|j: int| i < j < levels.len() implies !#[trigger] levels[j].contains_key(
                    name,
                ) by {
                    if j < below.len() {
                        assert(levels[j] == below[j]);
                    }
                }
            },
            None => {
                assert forall|i: int| 0 <= i < levels.len() implies !#[trigger] levels[i].contains_key(
                    name,
                ) by {
                    if i < levels.len() - 1 {
                        assert(levels[i] == levels.drop_last()[i]);
                    }
                }
            },
        }
    }
}

} // verus!
