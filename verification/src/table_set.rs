//! The universe of tables that a formula can refer to, keyed by name.

use vstd::prelude::*;
use vstd::hash_map::StringHashMap;
use crate::table::{Table, TableModel};

verus! {

/// A collection of tables, each stored under a name of its own.
///
/// The tables lie in a vector, and a hash index leads from a name to the
/// table's position, so that a stored table can be borrowed and changed in
/// place.
pub struct TableSet {
    index: StringHashMap<usize>,
    tables: Vec<Table>,
}

impl View for TableSet {
    type V = Map<Seq<char>, TableModel>;

    closed spec fn view(&self) -> Map<Seq<char>, TableModel> {
        Map::new(
            |name: Seq<char>| self.index@.contains_key(name),
            |name: Seq<char>| self.tables[self.index@[name] as int]@,
        )
    }
}

/// The cell at `(x, y)` of the table stored under `table`, if there is such
/// a table and it has such a cell.
pub open spec fn lookup(tables: Map<Seq<char>, TableModel>, table: Seq<char>, x: int, y: int) -> Option<
    i32,
> {
    if tables.contains_key(table) {
        tables[table].cell(x, y)
    } else {
        None
    }
}

impl TableSet {
    /// Every indexed position holds a table, and no two names share one.
    #[verifier::type_invariant]
    spec fn well_formed(self) -> bool {
        &&& forall|name: Seq<char>|
            self.index@.contains_key(name) ==> (#[trigger] self.index@[name]) < self.tables.len()
        &&& forall|a: Seq<char>, b: Seq<char>|
            self.index@.contains_key(a) && self.index@.contains_key(b) && #[trigger] self.index@[a]
                == #[trigger] self.index@[b] ==> a == b
    }

    /// A set with no table in it.
    pub fn new() -> (set: Self)
        ensures
            set@ == Map::<Seq<char>, TableModel>::empty(),
    {
        let set = TableSet { index: StringHashMap::new(), tables: Vec::new() };
        assert(set@ =~= Map::<Seq<char>, TableModel>::empty());
        set
    }

    /// Stores `table` under `name` and hands back the table that was stored
    /// under that name before, if there was one.
    pub fn insert(&mut self, name: String, table: Table) -> (previous: Option<Table>)
        ensures
            final(self)@ == old(self)@.insert(name@, table@),
            match previous {
                Some(t) => old(self)@.contains_key(name@) && t@ == old(self)@[name@],
                None => !old(self)@.contains_key(name@),
            },
    {
        proof {
            use_type_invariant(&*self);
        }
        let mut table = table;
        let found = match self.index.get(name.as_str()) {
            Some(i) => Some(*i),
            None => None,
        };
        match found {
            Some(i) => {
                std::mem::swap(&mut self.tables[i], &mut table);
                assert(self@ =~= old(self)@.insert(name@, self.tables[i as int]@));
                Some(table)
            },
            None => {
                // The two fields change together, so the set is taken apart
                // and put together again with the new table in it.
                let mut taken = TableSet::new();
                std::mem::swap(self, &mut taken);
                let TableSet { mut index, mut tables } = taken;
                let i: usize = tables.len();
                tables.push(table);
                index.insert(name, i);
                *self = TableSet { index, tables };
                assert(self@ =~= old(self)@.insert(name@, self.tables[i as int]@));
                None
            },
        }
    }

    /// The table stored under `name`.
    pub fn get(&self, name: &str) -> (table: Option<&Table>)
        ensures
            match table {
                Some(t) => self@.contains_key(name@) && t@ == self@[name@],
                None => !self@.contains_key(name@),
            },
    {
        proof {
            use_type_invariant(self);
        }
        match self.index.get(name) {
            Some(i) => Some(&self.tables[*i]),
            None => None,
        }
    }

    /// The table stored under `name`, to be changed in place.
    pub fn get_mut(&mut self, name: &str) -> (table: Option<&mut Table>)
        ensures
            match table {
                Some(t) => old(self)@.contains_key(name@) && t@ == old(self)@[name@]
                    && final(self)@ == old(self)@.insert(name@, final(t)@),
                None => !old(self)@.contains_key(name@) && final(self)@ == old(self)@,
            },
    {
        proof {
            use_type_invariant(&*self);
        }
        let found = match self.index.get(name) {
            Some(i) => Some(*i),
            None => None,
        };
        match found {
            Some(i) => Some(&mut self.tables[i]),
            None => None,
        }
    }
}

} // verus!
