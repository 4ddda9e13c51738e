//! The two lookup tables the ledger owns: the account table, kept sorted
//! by client id, and the transfer table, kept in input order with unique
//! transaction ids.
use vstd::prelude::*;

use crate::client::{Client, ClientId};
use crate::transaction::{TransactionId, Transfer};

verus! {

/// One row of the account table.
#[derive(Clone, Copy, Debug)]
pub struct AccountEntry {
    pub id: ClientId,
    pub client: Client,
}

/// The account table is strictly sorted by client id, so ids are unique
/// and the rows are already in output order.
pub open spec fn accs_sorted(accs: Seq<AccountEntry>) -> bool {
    forall|i: int, j: int| 0 <= i < j < accs.len() ==> accs[i].id.0 < accs[j].id.0
}

/// Some row of `accs` is for client `id`.
pub open spec fn has_acc(accs: Seq<AccountEntry>, id: u16) -> bool {
    exists|i: int| 0 <= i < accs.len() && accs[i].id.0 == id
}

/// Where a row for client `id` belongs in the sorted table: the number of
/// rows with a smaller id.
pub open spec fn insert_pos(accs: Seq<AccountEntry>, id: u16) -> int
    decreases accs.len(),
{
    if accs.len() == 0 {
        0
    } else if accs[0].id.0 < id {
        1 + insert_pos(accs.skip(1), id)
    } else {
        0
    }
}

pub proof fn lemma_insert_pos_props(accs: Seq<AccountEntry>, id: u16)
    ensures
        0 <= insert_pos(accs, id) <= accs.len(),
        forall|i: int| 0 <= i < insert_pos(accs, id) ==> accs[i].id.0 < id,
        insert_pos(accs, id) < accs.len() ==> accs[insert_pos(accs, id)].id.0 >= id,
    decreases accs.len(),
{
    if accs.len() > 0 && accs[0].id.0 < id {
        lemma_insert_pos_props(accs.skip(1), id);
        assert(forall|i: int|
            1 <= i < insert_pos(accs, id) ==> accs[i].id.0 == accs.skip(1)[i - 1].id.0);
    }
}

/// The row of `accs` for client `id`, if the table is sorted: it can only
/// sit at the insertion position.
pub open spec fn find_acc(accs: Seq<AccountEntry>, id: u16) -> Option<int> {
    let p = insert_pos(accs, id);
    if p < accs.len() && accs[p].id.0 == id {
        Some(p)
    } else {
        None
    }
}

pub proof fn lemma_find_acc_props(accs: Seq<AccountEntry>, id: u16)
    requires
        accs_sorted(accs),
    ensures
        match find_acc(accs, id) {
            Some(j) => 0 <= j < accs.len() && accs[j].id.0 == id,
            None => !has_acc(accs, id),
        },
{
    lemma_insert_pos_props(accs, id);
    let p = insert_pos(accs, id);
    if !(p < accs.len() && accs[p].id.0 == id) {
        assert forall|i: int| 0 <= i < accs.len() implies accs[i].id.0 != id by {
            if i < p {
            } else if i == p {
            } else {
                assert(accs[p].id.0 < accs[i].id.0);
            }
        }
    }
}

/// The sorted table with a fresh row for client `id` put in its place.
pub open spec fn with_inserted(accs: Seq<AccountEntry>, e: AccountEntry) -> Seq<AccountEntry> {
    let p = insert_pos(accs, e.id.0);
    accs.take(p) + seq![e] + accs.skip(p)
}

/// Inserting a row for an id the sorted table does not have keeps it
/// sorted, keeps every other row, and adds that one.
pub proof fn lemma_with_inserted_props(accs: Seq<AccountEntry>, e: AccountEntry)
    requires
        accs_sorted(accs),
        !has_acc(accs, e.id.0),
    ensures
        accs_sorted(with_inserted(accs, e)),
        with_inserted(accs, e).len() == accs.len() + 1,
        with_inserted(accs, e)[insert_pos(accs, e.id.0)] == e,
        forall|i: int|
            0 <= i < insert_pos(accs, e.id.0) ==> with_inserted(accs, e)[i] == accs[i],
        forall|i: int|
            insert_pos(accs, e.id.0) < i < accs.len() + 1 ==> with_inserted(accs, e)[i] == accs[i
                - 1],
{
    lemma_insert_pos_props(accs, e.id.0);
    let p = insert_pos(accs, e.id.0);
    let r = with_inserted(accs, e);
    assert(forall|i: int| 0 <= i < p ==> r[i] == accs[i]);
    assert(r[p] == e);
    assert(forall|i: int| p < i < r.len() ==> r[i] == accs[i - 1]);
    assert(p < accs.len() ==> accs[p].id.0 != e.id.0);
    assert forall|i: int, j: int| 0 <= i < j < r.len() implies r[i].id.0 < r[j].id.0 by {
        if i == p {
            assert(accs[j - 1].id.0 >= accs[p].id.0 > e.id.0 || (p == j - 1 && accs[p].id.0
                > e.id.0));
        } else if j == p {
            assert(accs[i].id.0 < e.id.0);
        }
    }
}

/// Transaction ids are unique across the transfer table.
pub open spec fn tx_ids_unique(ts: Seq<Transfer>) -> bool {
    forall|i: int, j: int| 0 <= i < j < ts.len() ==> ts[i].id.0 != ts[j].id.0
}

/// The first row of the transfer table with id `id`.
pub open spec fn find_tx(ts: Seq<Transfer>, id: TransactionId) -> Option<int>
    decreases ts.len(),
{
    if ts.len() == 0 {
        None
    } else if ts[0].id.0 == id.0 {
        Some(0)
    } else {
        match find_tx(ts.skip(1), id) {
            None => None,
            Some(k) => Some(k + 1),
        }
    }
}

pub proof fn lemma_find_tx_props(ts: Seq<Transfer>, id: TransactionId)
    ensures
        match find_tx(ts, id) {
            Some(i) => 0 <= i < ts.len() && ts[i].id.0 == id.0 && forall|k: int|
                0 <= k < i ==> ts[k].id.0 != id.0,
            None => forall|k: int| 0 <= k < ts.len() ==> ts[k].id.0 != id.0,
        },
    decreases ts.len(),
{
    if ts.len() > 0 && ts[0].id.0 != id.0 {
        lemma_find_tx_props(ts.skip(1), id);
        assert(forall|k: int| 1 <= k < ts.len() ==> ts[k] == ts.skip(1)[k - 1]);
    }
}

/// If the first `i` rows do not carry `id` and row `i`, if present, does,
/// then the search lands exactly there.
pub proof fn lemma_find_tx_exact(ts: Seq<Transfer>, id: TransactionId, i: int)
    requires
        0 <= i <= ts.len(),
        forall|k: int| 0 <= k < i ==> ts[k].id.0 != id.0,
        i < ts.len() ==> ts[i].id.0 == id.0,
    ensures
        i == ts.len() ==> find_tx(ts, id) is None,
        i < ts.len() ==> find_tx(ts, id) == Some(i),
    decreases i,
{
    if i == 0 {
        if ts.len() > 0 {
        } else {
        }
    } else {
        assert(ts[0].id.0 != id.0);
        let t = ts.skip(1);
        assert(forall|k: int| 0 <= k < i - 1 ==> t[k].id.0 != id.0);
        assert(i - 1 < t.len() ==> t[i - 1].id.0 == id.0);
        lemma_find_tx_exact(t, id, i - 1);
    }
}

/// Finds the row of the sorted account table for client `id`, together
/// with the insertion position when there is none.
pub(crate) fn find_account(accs: &Vec<AccountEntry>, id: u16) -> (r: (usize, bool))
    requires
        accs_sorted(accs@),
    ensures
        r.0 == insert_pos(accs@, id),
        r.1 == (find_acc(accs@, id) is Some),
        r.1 ==> find_acc(accs@, id) == Some(r.0 as int),
{
    let mut i: usize = 0;
    while i < accs.len() && accs[i].id.0 < id
        invariant
            0 <= i <= accs@.len(),
            forall|k: int| 0 <= k < i ==> accs@[k].id.0 < id,
        decreases accs@.len() - i,
    {
        i = i + 1;
    }
    proof {
        lemma_insert_pos_exact(accs@, id, i as int);
    }
    if i < accs.len() && accs[i].id.0 == id {
        (i, true)
    } else {
        (i, false)
    }
}

proof fn lemma_insert_pos_exact(accs: Seq<AccountEntry>, id: u16, i: int)
    requires
        0 <= i <= accs.len(),
        forall|k: int| 0 <= k < i ==> accs[k].id.0 < id,
        i < accs.len() ==> accs[i].id.0 >= id,
    ensures
        insert_pos(accs, id) == i,
    decreases i,
{
    if i == 0 {
    } else {
        assert(accs[0].id.0 < id);
        let t = accs.skip(1);
        assert(forall|k: int| 0 <= k < i - 1 ==> t[k].id.0 < id);
        assert(i - 1 < t.len() ==> t[i - 1].id.0 >= id);
        lemma_insert_pos_exact(t, id, i - 1);
    }
}

/// Finds the row of the transfer table with id `id`.
pub(crate) fn find_transfer(ts: &Vec<Transfer>, id: TransactionId) -> (r: Option<usize>)
    ensures
        match r {
            Some(i) => find_tx(ts@, id) == Some(i as int),
            None => find_tx(ts@, id) is None,
        },
{
    let mut i: usize = 0;
    while i < ts.len() && ts[i].id.0 != id.0
        invariant
            0 <= i <= ts@.len(),
            forall|k: int| 0 <= k < i ==> ts@[k].id.0 != id.0,
        decreases ts@.len() - i,
    {
        i = i + 1;
    }
    proof {
        lemma_find_tx_exact(ts@, id, i as int);
    }
    if i < ts.len() {
        Some(i)
    } else {
        None
    }
}

} // verus!
