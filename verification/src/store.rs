//! The record store: the statements that reach it, and a table held in
//! memory that answers them as the store does.

use crate::customer::{views, Customer, CustomerView};
use vstd::prelude::*;

verus! {

/// Inserts one customer; the parameters are the seven text fields in the
/// stored order.
pub const INSERT_STATEMENT: &'static str =
    "INSERT INTO CUSTOMERS (FirstName,LastName, Street, City, Zip, Country, AccessKey) VALUES (?,?,?,?,?,?,?)";

/// Selects every customer, the highest identifier first.
pub const SELECT_STATEMENT: &'static str =
    "SELECT ID, FirstName,LastName, Street, City, Zip, Country, AccessKey FROM CUSTOMERS ORDER BY ID DESC";

/// Deletes the customer whose identifier is the one parameter.
pub const DELETE_STATEMENT: &'static str = "DELETE FROM CUSTOMERS WHERE ID = ?";

/// Why the store did not carry out a statement.
#[derive(Debug, Clone, Copy, PartialEq, Eq, Structural)]
pub enum StoreError {
    /// No identifier is left for a new row.
    Full,
    /// The store failed on its own account.
    Failed,
}

/// Whether identifiers fall strictly from each row to the next, so that no
/// identifier occurs twice.
pub open spec fn descending(rows: Seq<CustomerView>) -> bool {
    forall|i: int, j: int| 0 <= i < j < rows.len() ==> rows[i].id > rows[j].id
}

/// Whether some row has the identifier `id`.
pub open spec fn has_id(rows: Seq<CustomerView>, id: int) -> bool {
    exists|i: int| 0 <= i < rows.len() && #[trigger] rows[i].id == id
}

/// The identifier that the next new row gets: one more than the highest in
/// the table, or 1 in an empty table.
pub open spec fn next_id(rows: Seq<CustomerView>) -> int {
    if rows.len() == 0 {
        1
    } else {
        rows[0].id + 1
    }
}

/// The row that is stored for `customer` under the identifier `id`.
pub open spec fn stored(customer: CustomerView, id: int) -> CustomerView {
    CustomerView { id, ..customer }
}

/// The rows after a customer is inserted: the new row first.
pub open spec fn inserted(rows: Seq<CustomerView>, customer: CustomerView) -> Seq<CustomerView> {
    seq![stored(customer, next_id(rows))] + rows
}

/// The rows that are left when those with the identifier `id` are deleted,
/// in their order.
pub open spec fn without(rows: Seq<CustomerView>, id: int) -> Seq<CustomerView>
    decreases rows.len(),
{
    if rows.len() == 0 {
        rows
    } else if rows.last().id == id {
        without(rows.drop_last(), id)
    } else {
        without(rows.drop_last(), id).push(rows.last())
    }
}

/// Deleting an identifier that no row has changes nothing.
pub proof fn lemma_without_absent(rows: Seq<CustomerView>, id: int)
    requires
        !has_id(rows, id),
    ensures
        without(rows, id) == rows,
    decreases rows.len(),
{
    if rows.len() > 0 {
        assert(rows.last() == rows[rows.len() - 1]);
        assert(rows[rows.len() - 1].id != id);
        assert forall|i: int| 0 <= i < rows.drop_last().len() implies #[trigger] rows.drop_last()[i].id
            != id by {
            assert(rows[i].id != id);
        }
        lemma_without_absent(rows.drop_last(), id);
        assert(rows.drop_last().push(rows.last()) =~= rows);
    }
}

/// Nothing that is left after a deletion has the deleted identifier, and
/// every row that is left was there before.
pub proof fn lemma_without_rows(rows: Seq<CustomerView>, id: int)
    ensures
        !has_id(without(rows, id), id),
        without(rows, id).len() <= rows.len(),
        forall|i: int|
            0 <= i < without(rows, id).len() ==> rows.contains(#[trigger] without(rows, id)[i]),
        forall|i: int|
            0 <= i < rows.len() && rows[i].id != id ==> without(rows, id).contains(
                #[trigger] rows[i],
            ),
    decreases rows.len(),
{
    let left = without(rows, id);
    if rows.len() > 0 {
        let front = rows.drop_last();
        lemma_without_rows(front, id);
        let inner = without(front, id);
        assert forall|i: int| 0 <= i < left.len() implies rows.contains(#[trigger] left[i]) by {
            if i < inner.len() {
                assert(left[i] == inner[i]);
                let k = choose|k: int| 0 <= k < front.len() && front[k] == inner[i];
                assert(rows[k] == left[i]);
            } else {
                assert(rows[rows.len() - 1] == left[i]);
            }
        }
        assert forall|i: int| 0 <= i < rows.len() && rows[i].id != id implies left.contains(
            #[trigger] rows[i],
        ) by {
            if i < front.len() {
                assert(front[i] == rows[i]);
                let k = choose|k: int| 0 <= k < inner.len() && inner[k] == front[i];
                assert(left[k] == rows[i]);
            } else {
                assert(left[left.len() - 1] == rows[i]);
            }
        }
        if has_id(left, id) {
            let k = choose|k: int| 0 <= k < left.len() && #[trigger] left[k].id == id;
            if k < inner.len() {
                assert(inner[k].id == id);
            }
        }
    }
}

/// In a table without repeated identifiers, deleting an identifier that some
/// row has removes exactly one row.
pub proof fn lemma_without_present(rows: Seq<CustomerView>, id: int)
    requires
        descending(rows),
        has_id(rows, id),
    ensures
        without(rows, id).len() == rows.len() - 1,
    decreases rows.len(),
{
    let front = rows.drop_last();
    let k = choose|k: int| 0 <= k < rows.len() && #[trigger] rows[k].id == id;
    if rows.last().id == id {
        assert forall|i: int| 0 <= i < front.len() implies #[trigger] front[i].id != id by {
            assert(rows[i].id > rows[rows.len() - 1].id);
        }
        lemma_without_absent(front, id);
    } else {
        assert(front[k].id == id);
        assert forall|i: int, j: int| 0 <= i < j < front.len() implies front[i].id
            > front[j].id by {
            assert(rows[i].id > rows[j].id);
        }
        lemma_without_present(front, id);
    }
}

/// Deleting keeps the identifiers falling.
pub proof fn lemma_without_descending(rows: Seq<CustomerView>, id: int)
    requires
        descending(rows),
    ensures
        descending(without(rows, id)),
        forall|i: int|
            0 <= i < without(rows, id).len() && rows.len() > 0 ==> (#[trigger] without(rows, id)[i]).id
                >= rows.last().id,
    decreases rows.len(),
{
    if rows.len() > 0 {
        let front = rows.drop_last();
        assert forall|i: int, j: int| 0 <= i < j < front.len() implies front[i].id
            > front[j].id by {
            assert(rows[i].id > rows[j].id);
        }
        lemma_without_descending(front, id);
        let inner = without(front, id);
        let left = without(rows, id);
        if front.len() > 0 {
            assert(front.last() == rows[rows.len() - 2]);
            assert(rows[rows.len() - 2].id > rows[rows.len() - 1].id);
        }
        assert forall|i: int| 0 <= i < inner.len() implies (#[trigger] inner[i]).id
            > rows.last().id by {}
        assert forall|i: int, j: int| 0 <= i < j < left.len() implies left[i].id > left[j].id by {
            if j < inner.len() {
                assert(left[i] == inner[i] && left[j] == inner[j]);
            } else {
                assert(left[i] == inner[i]);
            }
        }
    }
}

/// A table of customers held in memory, newest first. It assigns
/// identifiers as the record store does and keeps them unique.
pub struct Table {
    rows: Vec<Customer>,
}

impl View for Table {
    type V = Seq<CustomerView>;

    closed spec fn view(&self) -> Seq<CustomerView> {
        views(self.rows@)
    }
}

impl Table {
    /// The table's invariant: identifiers fall from row to row.
    pub open spec fn wf(&self) -> bool {
        descending(self@)
    }

    /// An empty table.
    pub fn new() -> (table: Table)
        ensures
            table@ == Seq::<CustomerView>::empty(),
            table.wf(),
    {
        let table = Table { rows: Vec::new() };
        proof {
            assert(table@ =~= Seq::<CustomerView>::empty());
        }
        table
    }

    /// A table that holds `rows` as they are, where their identifiers fall
    /// from each row to the next; no table otherwise.
    pub fn from_rows(rows: Vec<Customer>) -> (table: Option<Table>)
        ensures
            descending(views(rows@)) ==> table is Some && table->Some_0@ == views(rows@)
                && table->Some_0.wf(),
            !descending(views(rows@)) ==> table is None,
    {
        if rows.len() == 0 {
            return Some(Table { rows });
        }
        let mut i: usize = 1;
        while i < rows.len()
            invariant
                1 <= i <= rows.len(),
                descending(views(rows@).take(i as int)),
            decreases rows.len() - i,
        {
            if rows[i - 1].id <= rows[i].id {
                proof {
                    assert(views(rows@)[i - 1].id <= views(rows@)[i as int].id);
                }
                return None;
            }
            proof {
                let seen = views(rows@).take(i as int);
                let next = views(rows@).take(i + 1);
                assert forall|a: int, b: int| 0 <= a < b < next.len() implies next[a].id
                    > next[b].id by {
                    if b < i {
                        assert(seen[a].id > seen[b].id);
                    } else if a < i - 1 {
                        assert(seen[a].id > seen[i - 1].id);
                    }
                }
            }
            i = i + 1;
        }
        proof {
            assert(views(rows@).take(i as int) =~= views(rows@));
        }
        Some(Table { rows })
    }

    /// The number of rows.
    pub fn len(&self) -> (count: usize)
        ensures
            count == self@.len(),
    {
        self.rows.len()
    }

    /// Stores the seven text fields of `customer` in a new row, under the next
    /// identifier; the identifier of `customer` itself is not read. Fails,
    /// and changes nothing, when no identifier is left.
    pub fn insert(&mut self, customer: &Customer) -> (assigned: Result<i64, StoreError>)
        requires
            old(self).wf(),
        ensures
            final(self).wf(),
            next_id(old(self)@) <= i64::MAX ==> assigned == Ok::<i64, StoreError>(
                next_id(old(self)@) as i64,
            ) && final(self)@ == inserted(old(self)@, customer@),
            next_id(old(self)@) > i64::MAX ==> assigned == Err::<i64, StoreError>(StoreError::Full)
                && final(self)@ == old(self)@,
    {
        let id: i64 = if self.rows.len() == 0 {
            1
        } else {
            let highest = self.rows[0].id;
            if highest == i64::MAX {
                return Err(StoreError::Full);
            }
            highest + 1
        };
        let mut row = customer.duplicate();
        row.id = id;
        let ghost before = self@;
        self.rows.insert(0, row);
        proof {
            assert(self@ =~= inserted(before, customer@));
            assert forall|i: int, j: int| 0 <= i < j < self@.len() implies self@[i].id
                > self@[j].id by {
                if i > 0 {
                    assert(before[i - 1].id > before[j - 1].id);
                } else if j > 1 {
                    assert(before[0].id > before[j - 1].id);
                }
            }
        }
        Ok(id)
    }

    /// Every row, the highest identifier first.
    pub fn select_all(&self) -> (rows: Vec<Customer>)
        requires
            self.wf(),
        ensures
            views(rows@) == self@,
            descending(views(rows@)),
    {
        let mut rows: Vec<Customer> = Vec::new();
        let mut i: usize = 0;
        while i < self.rows.len()
            invariant
                0 <= i <= self.rows.len(),
                rows@.len() == i,
                views(rows@) =~= self@.take(i as int),
            decreases self.rows.len() - i,
        {
            let ghost copied = views(rows@);
            rows.push(self.rows[i].duplicate());
            proof {
                assert forall|k: int| 0 <= k < i + 1 implies views(rows@)[k] == self@[k] by {
                    if k < i {
                        assert(views(rows@)[k] == copied[k]);
                        assert(copied[k] == self@.take(i as int)[k]);
                    }
                }
            }
            i = i + 1;
        }
        proof {
            assert(self@.take(self.rows.len() as int) =~= self@);
        }
        rows
    }

    /// Deletes the row with the identifier `id`, if there is one, and says how
    /// many rows left the table.
    pub fn delete(&mut self, id: i64) -> (affected: usize)
        requires
            old(self).wf(),
        ensures
            final(self).wf(),
            final(self)@ == without(old(self)@, id as int),
            affected == old(self)@.len() - final(self)@.len(),
            affected == if has_id(old(self)@, id as int) { 1usize } else { 0usize },
    {
        let ghost before = self@;
        let mut kept: Vec<Customer> = Vec::new();
        let mut i: usize = 0;
        while i < self.rows.len()
            invariant
                0 <= i <= self.rows.len(),
                self@ == before,
                views(kept@) =~= without(before.take(i as int), id as int),
            decreases self.rows.len() - i,
        {
            proof {
                assert(before.take(i + 1).drop_last() =~= before.take(i as int));
                assert(before.take(i + 1).last() == self.rows[i as int]@);
            }
            if self.rows[i].id != id {
                let ghost copied = views(kept@);
                kept.push(self.rows[i].duplicate());
                proof {
                    assert forall|k: int| 0 <= k < kept@.len() implies views(kept@)[k]
                        == copied.push(self.rows[i as int]@)[k] by {
                        if k < copied.len() {
                            assert(views(kept@)[k] == copied[k]);
                        }
                    }
                }
            }
            i = i + 1;
        }
        proof {
            assert(before.take(self.rows.len() as int) =~= before);
            lemma_without_descending(before, id as int);
            lemma_without_rows(before, id as int);
            if has_id(before, id as int) {
                lemma_without_present(before, id as int);
            } else {
                lemma_without_absent(before, id as int);
            }
        }
        let affected = self.rows.len() - kept.len();
        self.rows = kept;
        affected
    }
}

} // verus!
