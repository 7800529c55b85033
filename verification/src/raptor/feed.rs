use vstd::prelude::*;

use crate::errors::RaptorError;
use crate::text::same_text;

verus! {

/// One column of a GTFS file: its header and its cells, each read as text (an empty
/// cell is `None`).
#[derive(Debug, Clone)]
pub struct GtfsColumn {
    pub name: String,
    pub cells: Vec<Option<String>>,
}

/// A GTFS file read as a table of text columns.
#[derive(Debug, Clone)]
pub struct GtfsTable {
    pub columns: Vec<GtfsColumn>,
}

/// The four files of a feed that the routing is built from.
#[derive(Debug, Clone)]
pub struct RaptorGtfsFeed {
    pub routes: GtfsTable,
    pub trips: GtfsTable,
    pub stops: GtfsTable,
    pub stop_times: GtfsTable,
}

/// How the table library reports a missing column (`{:?} not found`, for names that
/// need no escaping).
pub open spec fn column_not_found(name: Seq<char>) -> Seq<char> {
    "not found: \""@ + name + "\" not found"@
}

/// Index of the first column named `name`, if any.
pub open spec fn first_column(cols: Seq<GtfsColumn>, name: Seq<char>) -> Option<int>
    decreases cols.len(),
{
    if cols.len() == 0 {
        None
    } else {
        match first_column(cols.drop_last(), name) {
            Some(i) => Some(i),
            None => if cols.last().name@ == name {
                Some(cols.len() - 1)
            } else {
                None
            },
        }
    }
}

/// The cells of the first column named `name`, if the table has one.
pub open spec fn table_column(t: GtfsTable, name: Seq<char>) -> Option<Seq<Option<String>>> {
    match first_column(t.columns@, name) {
        Some(i) => Some(t.columns@[i].cells@),
        None => None,
    }
}

/// A cell of a column: `None` past the end of the column or where the cell is empty.
pub open spec fn cell(cells: Seq<Option<String>>, row: int) -> Option<String> {
    if 0 <= row < cells.len() {
        cells[row]
    } else {
        None
    }
}

proof fn lemma_first_column_prefix(cols: Seq<GtfsColumn>, name: Seq<char>, i: int)
    requires
        0 <= i < cols.len(),
        first_column(cols.take(i), name) is None,
        cols[i].name@ == name,
    ensures
        first_column(cols, name) == Some(i),
    decreases cols.len(),
{
    if i < cols.len() - 1 {
        assert(cols.drop_last().take(i) =~= cols.take(i));
        lemma_first_column_prefix(cols.drop_last(), name, i);
    } else {
        assert(cols.drop_last() =~= cols.take(i));
    }
}

proof fn lemma_first_column_none(cols: Seq<GtfsColumn>, name: Seq<char>)
    requires
        forall|j: int| 0 <= j < cols.len() ==> (#[trigger] cols[j]).name@ != name,
    ensures
        first_column(cols, name) is None,
    decreases cols.len(),
{
    if cols.len() > 0 {
        lemma_first_column_none(cols.drop_last(), name);
    }
}

proof fn lemma_first_column_in_range(cols: Seq<GtfsColumn>, name: Seq<char>)
    ensures
        first_column(cols, name) matches Some(i) ==> 0 <= i < cols.len() && cols[i].name@ == name,
    decreases cols.len(),
{
    if cols.len() > 0 {
        lemma_first_column_in_range(cols.drop_last(), name);
    }
}

impl GtfsTable {
    /// The cells of the first column named `name`, or an error naming the column.
    pub fn column(&self, name: &str) -> (res: Result<&Vec<Option<String>>, RaptorError>)
        ensures
            match table_column(*self, name@) {
                Some(cells) => res matches Ok(c) && c@ == cells,
                None => res matches Err(RaptorError::PolarsError(m)) && m@ == column_not_found(name@),
            },
    {
        let mut i: usize = 0;
        while i < self.columns.len()
            invariant
                i <= self.columns@.len(),
                forall|j: int| 0 <= j < i ==> (#[trigger] self.columns@[j]).name@ != name@,
            decreases self.columns@.len() - i,
        {
            if same_text(self.columns[i].name.as_str(), name) {
                proof {
                    lemma_first_column_none(self.columns@.take(i as int), name@);
                    lemma_first_column_prefix(self.columns@, name@, i as int);
                }
                return Ok(&self.columns[i].cells);
            }
            i = i + 1;
        }
        proof {
            lemma_first_column_none(self.columns@, name@);
        }
        let mut msg = String::from_str("not found: \"");
        msg.append(name);
        msg.append("\" not found");
        Err(RaptorError::PolarsError(msg))
    }
}

/// The cell at `row`: `None` past the end or where the cell is empty.
pub fn get_cell(cells: &Vec<Option<String>>, row: usize) -> (res: Option<&String>)
    ensures
        match cell(cells@, row as int) {
            Some(s) => res matches Some(r) && *r == s,
            None => res is None,
        },
{
    if row < cells.len() {
        match &cells[row] {
            Some(s) => Some(s),
            None => None,
        }
    } else {
        None
    }
}

/// The number of rows of a table: the length of its first column (zero without columns).
pub open spec fn table_height(t: GtfsTable) -> nat {
    if t.columns@.len() == 0 {
        0
    } else {
        t.columns@[0].cells@.len()
    }
}

impl GtfsTable {
    /// The number of rows of the table.
    pub fn height(&self) -> (res: usize)
        ensures
            res == table_height(*self),
    {
        if self.columns.len() == 0 {
            0
        } else {
            self.columns[0].cells.len()
        }
    }
}

} // verus!
