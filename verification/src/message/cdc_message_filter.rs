//! The criteria under which a callback wants database changes, and when
//! they accept a change.

use crate::message::payload::{kind_covers, CdcChange, PostgresChangesEvent};
use vstd::prelude::*;

verus! {

/// The criteria under which a callback wants database changes. A field
/// that is not set accepts any value.
#[derive(Debug)]
pub struct CdcMessageFilter {
    pub schema: String,
    pub table: Option<String>,
    pub filter: Option<String>,
}

/// Whether the criteria accept a change: the schema is the same, the table
/// is the same or not set, and the row filter is the same or not set.
pub open spec fn criteria_accept(criteria: CdcMessageFilter, change: CdcChange) -> bool {
    &&& criteria.schema@ == change.schema@
    &&& criteria.table.is_some() ==> criteria.table.unwrap()@ == change.table@
    &&& criteria.filter.is_some() ==> change.filter.is_some() && criteria.filter.unwrap()@
        == change.filter.unwrap()@
}

/// Whether a registration for `asked` under `criteria` is to receive `change`.
pub open spec fn registration_accepts(
    asked: PostgresChangesEvent,
    criteria: CdcMessageFilter,
    change: CdcChange,
) -> bool {
    kind_covers(asked, change.event) && criteria_accept(criteria, change)
}

impl CdcMessageFilter {
    /// Criteria for one schema, with table and row filter as given.
    pub fn new(schema: String, table: Option<String>, filter: Option<String>) -> (criteria: Self)
        ensures
            criteria.schema == schema,
            criteria.table == table,
            criteria.filter == filter,
    {
        CdcMessageFilter { schema, table, filter }
    }

    /// Whether these criteria accept `change`.
    pub fn accepts(&self, change: &CdcChange) -> (b: bool)
        ensures
            b == criteria_accept(*self, *change),
    {
        if self.schema != change.schema {
            return false;
        }
        let table_fits = match &self.table {
            Some(table) => *table == change.table,
            None => true,
        };
        if !table_fits {
            return false;
        }
        match &self.filter {
            Some(wanted) => match &change.filter {
                Some(got) => *wanted == *got,
                None => false,
            },
            None => true,
        }
    }
}

impl Default for CdcMessageFilter {
    /// The empty schema name, any table, any row filter.
    fn default() -> (criteria: Self)
        ensures
            criteria.schema@ == Seq::<char>::empty(),
            criteria.table.is_none(),
            criteria.filter.is_none(),
    {
        CdcMessageFilter { schema: String::new(), table: None, filter: None }
    }
}

impl Clone for CdcMessageFilter {
    /// A copy with the same three fields.
    fn clone(&self) -> (copy: Self)
        ensures
            copy == *self,
    {
        let table = match &self.table {
            Some(table) => Some(table.clone()),
            None => None,
        };
        let filter = match &self.filter {
            Some(filter) => Some(filter.clone()),
            None => None,
        };
        CdcMessageFilter { schema: self.schema.clone(), table, filter }
    }
}

/// Whether a registration for `asked` under `criteria` is to receive `change`.
pub fn accepts(asked: PostgresChangesEvent, criteria: &CdcMessageFilter, change: &CdcChange) -> (b:
    bool)
    ensures
        b == registration_accepts(asked, *criteria, *change),
{
    (asked == PostgresChangesEvent::All || asked == change.event) && criteria.accepts(change)
}

} // verus!
