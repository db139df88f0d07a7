//! What the host's catalog says of the tables a statement touches.

use vstd::prelude::*;

verus! {

/// The kind of a relation.
#[derive(Clone, Copy, PartialEq, Eq, Debug, Structural)]
pub enum TableKind {
    /// An ordinary table (a partitioned root included).
    Ordinary,
    /// A sequence: scanning it is never reported.
    Sequence,
    /// A partition, with the identifier of its direct parent.
    Partition(u32),
}

/// A resolved table: identifier, name, schema and kind.
pub struct TableDescriptor {
    pub oid: u32,
    pub name: String,
    pub schema: String,
    pub kind: TableKind,
}

impl TableDescriptor {
    /// Whether this relation is a sequence.
    pub fn is_sequence(&self) -> (r: bool)
        ensures
            r == (self.kind == TableKind::Sequence),
    {
        match self.kind {
            TableKind::Sequence => true,
            _ => false,
        }
    }
}

/// The descriptors of the tables a statement may scan, and of their
/// partition ancestors. Lookups take the first descriptor with the
/// identifier.
pub struct Catalog {
    pub tables: Vec<TableDescriptor>,
}

/// The position of the first descriptor of `oid` in `tables`.
pub open spec fn table_index(tables: Seq<TableDescriptor>, oid: u32) -> Option<int>
    decreases tables.len(),
{
    if tables.len() == 0 {
        None
    } else {
        match table_index(tables.drop_last(), oid) {
            Some(i) => Some(i),
            None => if tables.last().oid == oid {
                Some(tables.len() - 1)
            } else {
                None
            },
        }
    }
}

/// The position of the root of `oid`'s partition chain, climbing at most
/// `fuel` parent links; `None` when a table of the chain is missing or the
/// chain is longer (which, with `fuel` the catalog's size, means a cycle).
pub open spec fn root_index(tables: Seq<TableDescriptor>, oid: u32, fuel: nat) -> Option<int>
    decreases fuel,
{
    match table_index(tables, oid) {
        None => None,
        Some(i) => match tables[i].kind {
            TableKind::Partition(parent) => if fuel == 0 {
                None
            } else {
                root_index(tables, parent, (fuel - 1) as nat)
            },
            _ => Some(i),
        },
    }
}

pub proof fn lemma_table_index_bounds(tables: Seq<TableDescriptor>, oid: u32)
    ensures
        table_index(tables, oid) matches Some(i) ==> 0 <= i < tables.len() && tables[i].oid
            == oid,
    decreases tables.len(),
{
    if tables.len() > 0 {
        lemma_table_index_bounds(tables.drop_last(), oid);
    }
}

proof fn lemma_table_index_prefix(tables: Seq<TableDescriptor>, oid: u32, k: int, m: int)
    requires
        0 <= k <= m <= tables.len(),
        table_index(tables.take(k), oid) is Some,
    ensures
        table_index(tables.take(m), oid) == table_index(tables.take(k), oid),
    decreases m - k,
{
    if m > k {
        lemma_table_index_prefix(tables, oid, k, m - 1);
        assert(tables.take(m).drop_last() =~= tables.take(m - 1));
    }
}

pub proof fn lemma_root_index_bounds(tables: Seq<TableDescriptor>, oid: u32, fuel: nat)
    ensures
        root_index(tables, oid, fuel) matches Some(i) ==> 0 <= i < tables.len() && !(
        tables[i].kind is Partition),
    decreases fuel,
{
    lemma_table_index_bounds(tables, oid);
    if fuel > 0 {
        match table_index(tables, oid) {
            Some(i) => match tables[i].kind {
                TableKind::Partition(parent) => lemma_root_index_bounds(
                    tables,
                    parent,
                    (fuel - 1) as nat,
                ),
                _ => {},
            },
            None => {},
        }
    }
}

impl Catalog {
    /// The position of the first descriptor of `oid`.
    pub fn find(&self, oid: u32) -> (r: Option<usize>)
        ensures
            r matches Some(i) ==> table_index(self.tables@, oid) == Some(i as int),
            r is None ==> table_index(self.tables@, oid) is None,
    {
        let mut i: usize = 0;
        assert(self.tables@.take(0) =~= Seq::<TableDescriptor>::empty());
        while i < self.tables.len()
            invariant
                i <= self.tables@.len(),
                table_index(self.tables@.take(i as int), oid) is None,
            decreases self.tables@.len() - i,
        {
            assert(self.tables@.take(i as int + 1).drop_last() =~= self.tables@.take(i as int));
            if self.tables[i].oid == oid {
                proof {
                    lemma_table_index_prefix(
                        self.tables@,
                        oid,
                        i as int + 1,
                        self.tables@.len() as int,
                    );
                    assert(self.tables@.take(self.tables@.len() as int) =~= self.tables@);
                }
                return Some(i);
            }
            i = i + 1;
        }
        assert(self.tables@.take(i as int) =~= self.tables@);
        None
    }

    /// The position of the root table of `oid`: `oid` itself unless it is a
    /// partition, else the root of its parent. The climb takes at most as
    /// many steps as the catalog has entries, so a cycle ends it.
    pub fn root_of(&self, oid: u32) -> (r: Option<usize>)
        ensures
            r matches Some(i) ==> root_index(self.tables@, oid, self.tables@.len()) == Some(
                i as int,
            ),
            r is None ==> root_index(self.tables@, oid, self.tables@.len()) is None,
    {
        let mut cur: u32 = oid;
        let mut fuel: usize = self.tables.len();
        loop
            invariant
                root_index(self.tables@, cur, fuel as nat) == root_index(
                    self.tables@,
                    oid,
                    self.tables@.len() as nat,
                ),
            decreases fuel,
        {
            match self.find(cur) {
                None => {
                    return None;
                },
                Some(i) => {
                    proof {
                        lemma_table_index_bounds(self.tables@, cur);
                    }
                    match self.tables[i].kind {
                        TableKind::Partition(parent) => {
                            if fuel == 0 {
                                return None;
                            }
                            cur = parent;
                            fuel = fuel - 1;
                        },
                        _ => {
                            return Some(i);
                        },
                    }
                },
            }
        }
    }
}

} // verus!
