//! The tables of a publication as the source knows them, and the check that
//! the upstream still has them in the same shape.

use crate::ordered::{ordered_keys, strictly_increasing};
use crate::text::{decimal, decimal_text};
use std::collections::BTreeMap;
use vstd::prelude::*;
use vstd::string::*;

verus! {

/// One column of an upstream table.
#[derive(Clone, Debug, PartialEq, Eq)]
pub struct ColumnDesc {
    /// The name of the column.
    pub name: String,
    /// The OID of the column's type.
    pub type_oid: u32,
    /// The modifier of the column's type, such as a length.
    pub type_mod: i32,
    /// Whether the column admits NULL.
    pub nullable: bool,
}

/// The shape of an upstream table.
#[derive(Clone, Debug, PartialEq, Eq)]
pub struct TableDesc {
    /// The OID of the table.
    pub oid: u32,
    /// The schema that holds the table.
    pub namespace: String,
    /// The name of the table.
    pub name: String,
    /// The columns, in their order in the table.
    pub columns: Vec<ColumnDesc>,
}

/// An ingested upstream table.
#[derive(Debug)]
pub struct SourceTable<C> {
    /// The output that the rows of this table go to. Outputs count from 1.
    pub output_index: usize,
    /// The shape that the table had when the source was made.
    pub desc: TableDesc,
    /// The expressions that cast the text of each column to its type, one per
    /// output column.
    pub casts: Vec<C>,
}

impl ColumnDesc {
    /// Whether rows of a column shaped like `other` can be read as rows of
    /// this one: the name and the type, modifier included, are the same, and
    /// `other` admits NULL only if this column does.
    pub open spec fn compatible_with(self, other: ColumnDesc) -> bool {
        &&& self.name@ == other.name@
        &&& self.type_oid == other.type_oid
        &&& self.type_mod == other.type_mod
        &&& (self.nullable || !other.nullable)
    }

    /// Decides [`ColumnDesc::compatible_with`].
    pub fn is_compatible(&self, other: &ColumnDesc) -> (compatible: bool)
        ensures
            compatible == self.compatible_with(*other),
    {
        self.name == other.name && self.type_oid == other.type_oid && self.type_mod
            == other.type_mod && (self.nullable || !other.nullable)
    }
}

/// The text of the error for a table whose shape has changed upstream.
pub open spec fn altered_text(name: Seq<char>, oid: u32) -> Seq<char> {
    "source table "@ + name + " with oid "@ + decimal_text(oid as nat) + " has been altered"@
}

/// The text of the error for a table that the publication no longer has.
pub open spec fn dropped_text(name: Seq<char>, oid: u32) -> Seq<char> {
    "source table "@ + name + " with oid "@ + decimal_text(oid as nat) + " has been dropped"@
}

fn table_text(name: &String, oid: u32, fate: &str) -> (text: String)
    ensures
        text@ == "source table "@ + name@ + " with oid "@ + decimal_text(oid as nat) + fate@,
{
    let mut text = "source table ".to_owned();
    text.append(name.as_str());
    text.append(" with oid ");
    let digits = decimal(oid as u64);
    text.append(digits.as_str());
    text.append(fate);
    text
}

impl TableDesc {
    /// Whether a table shaped like `other` can stand for this one: both have
    /// the same number of columns, and at each position the columns are
    /// compatible.
    pub open spec fn compatible_with(self, other: TableDesc) -> bool {
        &&& self.columns@.len() == other.columns@.len()
        &&& forall|i: int|
            0 <= i < self.columns@.len() ==> (#[trigger] self.columns@[i]).compatible_with(
                other.columns@[i],
            )
    }

    /// Decides [`TableDesc::compatible_with`].
    pub fn is_compatible_with(&self, other: &TableDesc) -> (compatible: bool)
        ensures
            compatible == self.compatible_with(*other),
    {
        if self.columns.len() != other.columns.len() {
            return false;
        }
        let mut i: usize = 0;
        while i < self.columns.len()
            invariant
                i <= self.columns@.len(),
                self.columns@.len() == other.columns@.len(),
                forall|j: int|
                    0 <= j < i ==> (#[trigger] self.columns@[j]).compatible_with(
                        other.columns@[j],
                    ),
            decreases self.columns@.len() - i,
        {
            if !self.columns[i].is_compatible(&other.columns[i]) {
                return false;
            }
            i = i + 1;
        }
        true
    }

    /// The text of the error for this table where the publication no longer
    /// has it.
    pub fn dropped(&self) -> (text: String)
        ensures
            text@ == dropped_text(self.name@, self.oid),
    {
        table_text(&self.name, self.oid, " has been dropped")
    }

    /// Checks that the upstream table `other` can still stand for this one,
    /// and says that the table has been altered where it cannot.
    pub fn determine_compatibility(&self, other: &TableDesc) -> (res: Result<(), String>)
        ensures
            res is Ok <==> self.compatible_with(*other),
            res matches Err(text) ==> text@ == altered_text(self.name@, self.oid),
    {
        if self.is_compatible_with(other) {
            Ok(())
        } else {
            Err(table_text(&self.name, self.oid, " has been altered"))
        }
    }
}

/// The table that a publication holds under an OID: the last of `tables`
/// with that OID.
pub open spec fn published(tables: Seq<TableDesc>, oid: u32) -> Option<TableDesc>
    decreases tables.len(),
{
    if tables.len() == 0 {
        None
    } else if tables.last().oid == oid {
        Some(tables.last())
    } else {
        published(tables.drop_last(), oid)
    }
}

/// What is wrong with the table ingested under `oid`, given the tables that
/// the publication holds now, as the text of the error; `None` where the
/// table is still there in a compatible shape.
pub open spec fn table_fault(oid: u32, desc: TableDesc, tables: Seq<TableDesc>) -> Option<
    Seq<char>,
> {
    match published(tables, oid) {
        Some(upstream) => if desc.compatible_with(upstream) {
            None
        } else {
            Some(altered_text(desc.name@, desc.oid))
        },
        None => Some(dropped_text(desc.name@, desc.oid)),
    }
}

/// Finds the table that a publication holds under an OID.
pub fn find_published(tables: &Vec<TableDesc>, oid: u32) -> (found: Option<&TableDesc>)
    ensures
        match found {
            Some(desc) => published(tables@, oid) == Some(*desc),
            None => published(tables@, oid) is None,
        },
{
    let mut i: usize = tables.len();
    assert(tables@.take(i as int) =~= tables@);
    while i > 0
        invariant
            i <= tables@.len(),
            published(tables@, oid) == published(tables@.take(i as int), oid),
        decreases i,
    {
        proof {
            let head = tables@.take(i as int);
            assert(head.last() == tables@[i - 1]);
            assert(head.drop_last() =~= tables@.take(i - 1));
        }
        if tables[i - 1].oid == oid {
            return Some(&tables[i - 1]);
        }
        i = i - 1;
    }
    None
}

/// Whether every ingested table is still published in a compatible shape.
pub open spec fn tables_compatible<C>(
    source_tables: Map<u32, SourceTable<C>>,
    tables: Seq<TableDesc>,
) -> bool {
    forall|oid: u32| #[trigger]
        source_tables.contains_key(oid) ==> table_fault(oid, source_tables[oid].desc, tables)
            is None
}

/// Whether `text` is the fault of the table ingested under `oid`, and no
/// table ingested under a smaller OID has a fault.
pub open spec fn first_fault<C>(
    source_tables: Map<u32, SourceTable<C>>,
    tables: Seq<TableDesc>,
    oid: u32,
    text: Seq<char>,
) -> bool {
    &&& source_tables.contains_key(oid)
    &&& table_fault(oid, source_tables[oid].desc, tables) == Some(text)
    &&& forall|o: u32| #[trigger]
        source_tables.contains_key(o) && o < oid ==> table_fault(
            o,
            source_tables[o].desc,
            tables,
        ) is None
}

/// Determines whether the ingested tables and the tables that the
/// publication holds now are compatible with one another. The tables are
/// checked in the order of their OIDs, and the first fault found is the
/// error: a table that the publication no longer has, or one whose shape has
/// changed.
pub fn determine_table_compatibility<C>(
    source_tables: &BTreeMap<u32, SourceTable<C>>,
    tables: &Vec<TableDesc>,
) -> (res: Result<(), String>)
    ensures
        res is Ok <==> tables_compatible(source_tables@, tables@),
        res matches Err(text) ==> exists|oid: u32|
            first_fault(source_tables@, tables@, oid, text@),
{
    let oids = ordered_keys(source_tables);
    let mut i: usize = 0;
    while i < oids.len()
        invariant
            i <= oids@.len(),
            strictly_increasing(oids@),
            oids@.to_set() == source_tables@.dom(),
            forall|j: int|
                0 <= j < i ==> table_fault(
                    #[trigger] oids@[j],
                    source_tables@[oids@[j]].desc,
                    tables@,
                ) is None,
        decreases oids@.len() - i,
    {
        let oid = oids[i];
        proof {
            assert(oids@.contains(oid));
            assert(oids@.to_set().contains(oid));
            assert(source_tables@.contains_key(oid));
            assert forall|o: u32| #[trigger]
                source_tables@.contains_key(o) && o < oid implies table_fault(
                o,
                source_tables@[o].desc,
                tables@,
            ) is None by {
                assert(oids@.to_set().contains(o));
                let k = choose|k: int| 0 <= k < oids@.len() && oids@[k] == o;
                assert(k < i);
            }
        }
        match source_tables.get(&oid) {
            Some(info) => {
                let fault = match find_published(tables, oid) {
                    Some(upstream) => info.desc.determine_compatibility(upstream),
                    None => Err(info.desc.dropped()),
                };
                match fault {
                    Ok(()) => {},
                    Err(text) => {
                        proof {
                            assert(first_fault(source_tables@, tables@, oid, text@));
                        }
                        return Err(text);
                    },
                }
            },
            None => {},
        }
        i = i + 1;
    }
    proof {
        assert forall|oid: u32| #[trigger] source_tables@.contains_key(oid) implies table_fault(
            oid,
            source_tables@[oid].desc,
            tables@,
        ) is None by {
            assert(oids@.to_set().contains(oid));
        }
    }
    Ok(())
}

/// The map of ingested tables that a publication's tables and the casts of
/// the outputs give. The table at position `i` goes to output `i + 1`; it is
/// ingested where casts are given for that output, under its OID. Of two
/// tables with one OID the later one stays.
pub open spec fn source_tables_of<C>(tables: Seq<TableDesc>, casts: Map<usize, Vec<C>>) -> Map<
    u32,
    SourceTable<C>,
>
    decreases tables.len(),
{
    if tables.len() == 0 {
        Map::empty()
    } else {
        let rest = source_tables_of(tables.drop_last(), casts);
        let output_index = tables.len() as usize;
        if casts.contains_key(output_index) {
            rest.insert(
                tables.last().oid,
                SourceTable { output_index, desc: tables.last(), casts: casts[output_index] },
            )
        } else {
            rest
        }
    }
}

/// Builds the map of ingested tables from the tables of the publication, in
/// the publication's order, and the casts of each output that the source
/// uses. Tables without casts are left out: no snapshot is made of them and
/// their changes are ignored.
pub fn build_source_tables<C>(tables: Vec<TableDesc>, table_casts: BTreeMap<usize, Vec<C>>) -> (res:
    BTreeMap<u32, SourceTable<C>>)
    ensures
        res@ == source_tables_of(tables@, table_casts@),
{
    let mut table_casts = table_casts;
    let mut source_tables: BTreeMap<u32, SourceTable<C>> = BTreeMap::new();
    let ghost all = tables@;
    let ghost casts = table_casts@;
    let count = tables.len();
    let mut i: usize = 0;
    for desc in it: tables
        invariant
            it.seq() == all,
            all.len() == count,
            i == it.index(),
            source_tables@ == source_tables_of(all.take(i as int), casts),
            forall|k: usize| k > i ==> (table_casts@.contains_key(k) <==> casts.contains_key(k)),
            forall|k: usize| k > i && casts.contains_key(k) ==> table_casts@[k] == casts[k],
    {
        let output_index = i + 1;
        proof {
            let head = all.take(output_index as int);
            assert(head.last() == desc);
            assert(head.drop_last() =~= all.take(i as int));
        }
        match table_casts.remove(&output_index) {
            Some(casts) => {
                let source_table = SourceTable { output_index, desc, casts };
                source_tables.insert(source_table.desc.oid, source_table);
            },
            None => {},
        }
        i = output_index;
    }
    proof {
        assert(all.take(i as int) =~= all);
    }
    source_tables
}

} // verus!
