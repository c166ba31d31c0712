//! The table-map registry: a per-stream mapping from a table id to the
//! column types its most recent table-map event published. Threaded through
//! decoding as an explicit context so parsers stay reentrant.

use std::collections::HashMap;

use vstd::prelude::*;

use crate::mysql::ColTypes;

verus! {

broadcast use vstd::std_specs::hash::group_hash_axioms;

/// The registry: installs overwrite, entries are never removed, and a read
/// that finds nothing fails the row event that asked.
pub struct TableMapContext {
    table_map: HashMap<u64, Vec<ColTypes>>,
}

impl View for TableMapContext {
    type V = Map<u64, Vec<ColTypes>>;

    closed spec fn view(&self) -> Map<u64, Vec<ColTypes>> {
        self.table_map@
    }
}

impl TableMapContext {
    pub fn new() -> (r: TableMapContext)
        ensures
            r@ == Map::<u64, Vec<ColTypes>>::empty(),
    {
        TableMapContext { table_map: HashMap::new() }
    }

    /// Installs (or overwrites) the column types for a table id.
    pub fn install(&mut self, table_id: u64, columns: Vec<ColTypes>)
        ensures
            final(self)@ == old(self)@.insert(table_id, columns),
    {
        self.table_map.insert(table_id, columns);
    }

    /// Finds the column types of a table id, exactly when a table-map event
    /// for that id was installed before.
    pub fn lookup(&self, table_id: u64) -> (r: Option<&Vec<ColTypes>>)
        ensures
            r is Some <==> self@.contains_key(table_id),
            r matches Some(c) ==> *c == self@[table_id],
    {
        self.table_map.get(&table_id)
    }
}

/// After a table-map event installs column types at id `t`, a later read for
/// `t` is owed success and yields exactly those types, whatever else was
/// installed at other ids in between.
pub proof fn lemma_lookup_after_install(
    m: Map<u64, Vec<ColTypes>>,
    t: u64,
    columns: Vec<ColTypes>,
    later: Map<u64, Vec<ColTypes>>,
)
    requires
        later == m.insert(t, columns) || (later.contains_key(t) && later[t] == m.insert(
            t,
            columns,
        )[t]),
    ensures
        later.contains_key(t),
        later[t] == columns,
{
}

} // verus!
