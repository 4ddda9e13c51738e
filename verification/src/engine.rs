//! The ledger engine: a fold that replays transaction records, in input
//! order, against the account table and the transfer table, applying the
//! dispute lifecycle rules.
use vstd::prelude::*;

use crate::client::{balanced, client_zero, deposited, held_back, released, charged_back, withdrawn,
    Client, ClientId};
use crate::tables::{accs_sorted, find_acc, find_account, find_transfer, find_tx, has_acc,
    insert_pos, lemma_find_acc_props, lemma_find_tx_props, lemma_insert_pos_props,
    lemma_with_inserted_props, tx_ids_unique, with_inserted, AccountEntry};
use crate::transaction::{is_disputed, transfer_amount, with_disputed, DepositedTransaction,
    Dispute, DisputeState, Transfer, TransferType};

verus! {

/// One parsed input row: either a transfer or a dispute-class
/// instruction.
#[derive(Clone, Copy, Debug)]
pub enum InputCsvLine {
    Transfer(Transfer),
    Dispute(Dispute),
}

/// The whole state the fold owns: the transfer table in input order and
/// the account table sorted by client id.
#[verifier::ext_equal]
pub struct LedgerModel {
    pub transfers: Seq<Transfer>,
    pub accounts: Seq<AccountEntry>,
}

/// What the stored transfer `t` adds to the held funds of client `c`:
/// its amount while it is a deposit under dispute by that client,
/// nothing otherwise.
pub open spec fn held_part(t: Transfer, c: u16) -> nat {
    if is_disputed(t) && t.client_id.0 == c {
        transfer_amount(t) as nat
    } else {
        0
    }
}

/// The held funds that the transfer table accounts for on client `c`:
/// the sum of the amounts of that client's deposits currently under
/// dispute.
pub open spec fn dep_sum(ts: Seq<Transfer>, c: u16) -> nat
    decreases ts.len(),
{
    if ts.len() == 0 {
        0
    } else {
        dep_sum(ts.drop_last(), c) + held_part(ts.last(), c)
    }
}

/// The ledger invariant: the account table is sorted, transaction ids
/// are unique, every account balances, each client's held funds equal
/// the sum of that client's disputed deposits, and every stored transfer
/// belongs to a client that has an account row.
pub open spec fn inv(m: LedgerModel) -> bool {
    &&& accs_sorted(m.accounts)
    &&& tx_ids_unique(m.transfers)
    &&& forall|j: int| 0 <= j < m.accounts.len() ==> balanced(#[trigger] m.accounts[j].client)
    &&& forall|j: int|
        0 <= j < m.accounts.len() ==> (#[trigger] m.accounts[j].client).held@ == dep_sum(
            m.transfers,
            m.accounts[j].id.0,
        )
    &&& forall|i: int|
        0 <= i < m.transfers.len() ==> has_acc(m.accounts, (#[trigger] m.transfers[i]).client_id.0)
}

/// The empty ledger.
pub open spec fn ledger_empty() -> LedgerModel {
    LedgerModel { transfers: Seq::empty(), accounts: Seq::empty() }
}

/// The account table after looking up client `cid`, creating a fresh
/// zero-balance row when there was none.
pub open spec fn ensure_account(accs: Seq<AccountEntry>, cid: ClientId) -> Seq<AccountEntry> {
    if find_acc(accs, cid.0) is Some {
        accs
    } else {
        with_inserted(accs, AccountEntry { id: cid, client: client_zero() })
    }
}

/// One transfer replayed against the ledger. A transaction id already in
/// the table makes the whole record a no-op; otherwise the client's
/// account is located or created, the deposit or withdrawal is applied
/// unless the account is locked (a deposit whose scaled value would
/// overflow the representable range is likewise left unapplied), and the
/// transfer is stored in any case, so that later duplicates and disputes
/// can refer to it.
pub open spec fn spec_apply_transfer(m: LedgerModel, t: Transfer) -> LedgerModel {
    if find_tx(m.transfers, t.id) is Some {
        m
    } else {
        let accs1 = ensure_account(m.accounts, t.client_id);
        let j = insert_pos(m.accounts, t.client_id.0);
        let c = accs1[j].client;
        let c2 = if c.locked {
            c
        } else {
            match t.typ {
                TransferType::Deposit(dep) => if c.total@ + dep.amount@ <= u64::MAX {
                    deposited(c, dep.amount)
                } else {
                    c
                },
                TransferType::Withdrawal { amount } => if amount@ > c.available@ {
                    c
                } else {
                    withdrawn(c, amount)
                },
            }
        };
        LedgerModel {
            transfers: m.transfers.push(t),
            accounts: accs1.update(j, AccountEntry { id: t.client_id, client: c2 }),
        }
    }
}

/// One dispute-class instruction replayed against the ledger. It acts
/// only when the referenced transaction exists, is a deposit, and was
/// made by the same client; otherwise it is silently ignored. A dispute
/// opens only on an undisputed deposit of an unlocked client with enough
/// available funds; a resolve closes only an open dispute; a chargeback
/// settles only an open dispute of an unlocked client and locks the
/// account.
pub open spec fn spec_apply_dispute(m: LedgerModel, d: Dispute) -> LedgerModel {
    match find_tx(m.transfers, d.disputed_tx_id) {
        None => m,
        Some(i) => {
            let t = m.transfers[i];
            match t.typ {
                TransferType::Withdrawal { .. } => m,
                TransferType::Deposit(dep) => {
                    if t.client_id.0 != d.client_id.0 {
                        m
                    } else {
                        match find_acc(m.accounts, d.client_id.0) {
                            None => m,
                            Some(j) => {
                                let c = m.accounts[j].client;
                                match d.state {
                                    DisputeState::Dispute => {
                                        if !dep.disputed && !c.locked && c.available@
                                            >= dep.amount@ {
                                            LedgerModel {
                                                transfers: m.transfers.update(
                                                    i,
                                                    with_disputed(t, true),
                                                ),
                                                accounts: m.accounts.update(
                                                    j,
                                                    AccountEntry {
                                                        id: m.accounts[j].id,
                                                        client: held_back(c, dep.amount),
                                                    },
                                                ),
                                            }
                                        } else {
                                            m
                                        }
                                    },
                                    DisputeState::Resolve => {
                                        if dep.disputed {
                                            LedgerModel {
                                                transfers: m.transfers.update(
                                                    i,
                                                    with_disputed(t, false),
                                                ),
                                                accounts: m.accounts.update(
                                                    j,
                                                    AccountEntry {
                                                        id: m.accounts[j].id,
                                                        client: released(c, dep.amount),
                                                    },
                                                ),
                                            }
                                        } else {
                                            m
                                        }
                                    },
                                    DisputeState::Chargeback => {
                                        if dep.disputed && !c.locked {
                                            LedgerModel {
                                                transfers: m.transfers.update(
                                                    i,
                                                    with_disputed(t, false),
                                                ),
                                                accounts: m.accounts.update(
                                                    j,
                                                    AccountEntry {
                                                        id: m.accounts[j].id,
                                                        client: charged_back(c, dep.amount),
                                                    },
                                                ),
                                            }
                                        } else {
                                            m
                                        }
                                    },
                                }
                            },
                        }
                    }
                },
            }
        },
    }
}

/// One input record replayed against the ledger.
pub open spec fn spec_step(m: LedgerModel, rec: InputCsvLine) -> LedgerModel {
    match rec {
        InputCsvLine::Transfer(t) => spec_apply_transfer(m, t),
        InputCsvLine::Dispute(d) => spec_apply_dispute(m, d),
    }
}

/// A record as it comes from the parser: a transfer enters the ledger
/// not yet disputed.
pub open spec fn fresh_record(rec: InputCsvLine) -> bool {
    match rec {
        InputCsvLine::Transfer(t) => !is_disputed(t),
        InputCsvLine::Dispute(_) => true,
    }
}

pub proof fn lemma_dep_sum_push(ts: Seq<Transfer>, t: Transfer, c: u16)
    ensures
        dep_sum(ts.push(t), c) == dep_sum(ts, c) + held_part(t, c),
{
    assert(ts.push(t).drop_last() =~= ts);
    assert(ts.push(t).last() == t);
}

pub proof fn lemma_dep_sum_update(ts: Seq<Transfer>, i: int, t: Transfer, c: u16)
    requires
        0 <= i < ts.len(),
    ensures
        dep_sum(ts.update(i, t), c) + held_part(ts[i], c) == dep_sum(ts, c) + held_part(t, c),
    decreases ts.len(),
{
    let u = ts.update(i, t);
    if i == ts.len() - 1 {
        assert(u.drop_last() =~= ts.drop_last());
        assert(u.last() == t);
    } else {
        assert(u.drop_last() =~= ts.drop_last().update(i, t));
        assert(u.last() == ts.last());
        lemma_dep_sum_update(ts.drop_last(), i, t, c);
    }
}

/// A disputed deposit never holds more than its client's whole held sum.
pub proof fn lemma_dep_sum_member(ts: Seq<Transfer>, i: int, c: u16)
    requires
        0 <= i < ts.len(),
        ts[i].client_id.0 == c,
        is_disputed(ts[i]),
    ensures
        transfer_amount(ts[i]) <= dep_sum(ts, c),
    decreases ts.len(),
{
    if i == ts.len() - 1 {
        assert(ts.last() == ts[i]);
    } else {
        assert(ts.drop_last()[i] == ts[i]);
        lemma_dep_sum_member(ts.drop_last(), i, c);
    }
}

/// A client with no account row has no disputed deposits, as long as
/// every stored transfer belongs to a client with a row.
pub proof fn lemma_dep_sum_absent(ts: Seq<Transfer>, accs: Seq<AccountEntry>, c: u16)
    requires
        forall|i: int| 0 <= i < ts.len() ==> has_acc(accs, (#[trigger] ts[i]).client_id.0),
        !has_acc(accs, c),
    ensures
        dep_sum(ts, c) == 0,
    decreases ts.len(),
{
    if ts.len() > 0 {
        assert(forall|i: int|
            0 <= i < ts.len() - 1 ==> has_acc(accs, (#[trigger] ts.drop_last()[i]).client_id.0));
        lemma_dep_sum_absent(ts.drop_last(), accs, c);
        assert(has_acc(accs, ts.last().client_id.0));
        assert(ts.last().client_id.0 != c);
    }
}

/// The exec ledger: the two tables, owned by one fold for the length of
/// a run.
pub struct Ledger {
    pub transfers: Vec<Transfer>,
    pub accounts: Vec<AccountEntry>,
}

impl View for Ledger {
    type V = LedgerModel;

    open spec fn view(&self) -> LedgerModel {
        LedgerModel { transfers: self.transfers@, accounts: self.accounts@ }
    }
}

impl Ledger {
    /// A ledger with no transfers and no accounts.
    pub fn new() -> (r: Ledger)
        ensures
            r@ == ledger_empty(),
            inv(r@),
    {
        let r = Ledger { transfers: Vec::new(), accounts: Vec::new() };
        proof {
            assert(r@ =~~= ledger_empty());
        }
        r
    }

    /// Replays one record against the ledger.
    pub fn apply(&mut self, rec: InputCsvLine)
        requires
            inv(old(self)@),
            fresh_record(rec),
        ensures
            final(self)@ == spec_step(old(self)@, rec),
            inv(final(self)@),
    {
        match rec {
            InputCsvLine::Transfer(t) => self.apply_transfer(t),
            InputCsvLine::Dispute(d) => self.apply_dispute(d),
        }
    }

    fn apply_transfer(&mut self, t: Transfer)
        requires
            inv(old(self)@),
            !is_disputed(t),
        ensures
            final(self)@ == spec_apply_transfer(old(self)@, t),
            inv(final(self)@),
    {
        let ghost m0 = self@;
        match find_transfer(&self.transfers, t.id) {
            Some(_) => {
            },
            None => {
                proof {
                    lemma_find_tx_props(m0.transfers, t.id);
                }
                let (p, found) = find_account(&self.accounts, t.client_id.0);
                let ghost e_new = AccountEntry { id: t.client_id, client: client_zero() };
                if !found {
                    proof {
                        lemma_find_acc_props(m0.accounts, t.client_id.0);
                        lemma_with_inserted_props(m0.accounts, e_new);
                        lemma_insert_pos_props(m0.accounts, t.client_id.0);
                    }
                    self.accounts.insert(p, new_account_entry(t.client_id));
                    proof {
                        assert(self.accounts@ =~= with_inserted(m0.accounts, e_new));
                    }
                }
                let ghost accs1 = ensure_account(m0.accounts, t.client_id);
                proof {
                    assert(self.accounts@ == accs1);
                    lemma_insert_pos_props(m0.accounts, t.client_id.0);
                    if found {
                        lemma_find_acc_props(m0.accounts, t.client_id.0);
                    } else {
                        lemma_with_inserted_props(m0.accounts, e_new);
                        lemma_dep_sum_absent(m0.transfers, m0.accounts, t.client_id.0);
                    }
                    assert(accs1[p as int].id == t.client_id);
                    assert(balanced(accs1[p as int].client));
                    assert(accs1[p as int].client.held@ == dep_sum(m0.transfers, t.client_id.0));
                }
                let e = self.accounts[p];
                let mut c = e.client;
                if !c.locked {
                    match t.typ {
                        TransferType::Deposit(dep) => {
                            if c.total.0 <= u64::MAX - dep.amount.0 {
                                c.deposit(dep.amount);
                            }
                        },
                        TransferType::Withdrawal { amount } => {
                            c.withdrawal(amount);
                        },
                    }
                }
                self.accounts[p] = AccountEntry { id: t.client_id, client: c };
                self.transfers.push(t);
                proof {
                    let mf = spec_apply_transfer(m0, t);
                    assert(self@.accounts =~= mf.accounts);
                    assert(self@ =~~= mf);
                    lemma_transfer_keeps_inv(m0, t);
                }
            },
        }
    }

    fn apply_dispute(&mut self, d: Dispute)
        requires
            inv(old(self)@),
        ensures
            final(self)@ == spec_apply_dispute(old(self)@, d),
            inv(final(self)@),
    {
        let ghost m0 = self@;
        let iopt = find_transfer(&self.transfers, d.disputed_tx_id);
        match iopt {
            None => {
            },
            Some(i) => {
                proof {
                    lemma_find_tx_props(m0.transfers, d.disputed_tx_id);
                }
                let t = self.transfers[i];
                match t.typ {
                    TransferType::Withdrawal { .. } => {
                    },
                    TransferType::Deposit(dep) => {
                        if t.client_id.0 == d.client_id.0 {
                            let (j, found) = find_account(&self.accounts, d.client_id.0);
                            proof {
                                lemma_find_acc_props(m0.accounts, d.client_id.0);
                                if !found {
                                    assert(has_acc(m0.accounts, t.client_id.0));
                                    assert(false);
                                }
                            }
                            let e = self.accounts[j];
                            let mut c = e.client;
                            let mut acted = false;
                            let mut now_disputed = false;
                            match d.state {
                                DisputeState::Dispute => {
                                    if !dep.disputed && !c.locked && c.available.0 >= dep.amount.0 {
                                        proof {
                                            assert(c.held@ + dep.amount@ <= c.total@);
                                        }
                                        c.dispute(dep.amount);
                                        acted = true;
                                        now_disputed = true;
                                    }
                                },
                                DisputeState::Resolve => {
                                    if dep.disputed {
                                        proof {
                                            lemma_dep_sum_member(m0.transfers, i as int,
                                                d.client_id.0);
                                            assert(c.available@ + dep.amount@ <= c.total@);
                                        }
                                        c.resolve(dep.amount);
                                        acted = true;
                                        now_disputed = false;
                                    }
                                },
                                DisputeState::Chargeback => {
                                    if dep.disputed && !c.locked {
                                        proof {
                                            lemma_dep_sum_member(m0.transfers, i as int,
                                                d.client_id.0);
                                        }
                                        c.chargeback(dep.amount);
                                        acted = true;
                                        now_disputed = false;
                                    }
                                },
                            }
                            if acted {
                                self.accounts[j] = AccountEntry { id: e.id, client: c };
                                let t2 = Transfer {
                                    id: t.id,
                                    client_id: t.client_id,
                                    typ: TransferType::Deposit(
                                        DepositedTransaction {
                                            amount: dep.amount,
                                            disputed: now_disputed,
                                        },
                                    ),
                                };
                                self.transfers[i] = t2;
                                proof {
                                    assert(t2 == with_disputed(t, now_disputed));
                                    let mf = spec_apply_dispute(m0, d);
                                    assert(self@.transfers =~= mf.transfers);
                                    assert(self@.accounts =~= mf.accounts);
                                    assert(self@ =~~= mf);
                                    lemma_dispute_keeps_inv(m0, d);
                                }
                            }
                        }
                    },
                }
            },
        }
    }
}

/// Builds the fresh account row for a client first seen now.
fn new_account_entry(id: ClientId) -> (r: AccountEntry)
    ensures
        r == (AccountEntry { id, client: client_zero() }),
{
    AccountEntry { id, client: Client::new() }
}

/// Replaying a fresh transfer preserves the ledger invariant.
pub proof fn lemma_transfer_keeps_inv(m: LedgerModel, t: Transfer)
    requires
        inv(m),
        !is_disputed(t),
    ensures
        inv(spec_apply_transfer(m, t)),
{
    if find_tx(m.transfers, t.id) is Some {
    } else {
        lemma_find_tx_props(m.transfers, t.id);
        let cid = t.client_id.0;
        let e_new = AccountEntry { id: t.client_id, client: client_zero() };
        let accs1 = ensure_account(m.accounts, t.client_id);
        let j = insert_pos(m.accounts, cid);
        lemma_insert_pos_props(m.accounts, cid);
        lemma_find_acc_props(m.accounts, cid);
        if find_acc(m.accounts, cid) is None {
            lemma_with_inserted_props(m.accounts, e_new);
            lemma_dep_sum_absent(m.transfers, m.accounts, cid);
            assert forall|c: u16| has_acc(m.accounts, c) implies has_acc(accs1, c) by {
                let w = choose|w: int| 0 <= w < m.accounts.len() && m.accounts[w].id.0 == c;
                if w < j {
                    assert(accs1[w].id.0 == c);
                } else {
                    assert(accs1[w + 1].id.0 == c);
                }
            }
        }
        assert(accs_sorted(accs1));
        assert(accs1[j].id == t.client_id);
        assert(balanced(accs1[j].client));
        assert(accs1[j].client.held@ == dep_sum(m.transfers, cid));
        assert(forall|k: int|
            0 <= k < accs1.len() ==> balanced(#[trigger] accs1[k].client) && accs1[k].client.held@
                == dep_sum(m.transfers, accs1[k].id.0));
        let c = accs1[j].client;
        let c2 = if c.locked {
            c
        } else {
            match t.typ {
                TransferType::Deposit(dep) => if c.total@ + dep.amount@ <= u64::MAX {
                    deposited(c, dep.amount)
                } else {
                    c
                },
                TransferType::Withdrawal { amount } => if amount@ > c.available@ {
                    c
                } else {
                    withdrawn(c, amount)
                },
            }
        };
        assert(balanced(c2));
        assert(c2.held@ == c.held@);
        let mf = spec_apply_transfer(m, t);
        assert(mf.accounts == accs1.update(j, AccountEntry { id: t.client_id, client: c2 }));
        assert(accs_sorted(mf.accounts));
        assert(tx_ids_unique(mf.transfers)) by {
            assert(forall|k: int|
                0 <= k < m.transfers.len() ==> mf.transfers[k] == m.transfers[k]);
        }
        assert forall|c3: u16| true implies dep_sum(mf.transfers, c3) == dep_sum(
            m.transfers,
            c3,
        ) by {
            lemma_dep_sum_push(m.transfers, t, c3);
        }
        assert forall|k: int| 0 <= k < mf.accounts.len() implies balanced(
            #[trigger] mf.accounts[k].client,
        ) && mf.accounts[k].client.held@ == dep_sum(mf.transfers, mf.accounts[k].id.0) by {
            if k == j {
            } else {
                assert(mf.accounts[k] == accs1[k]);
            }
        }
        assert forall|k: int| 0 <= k < mf.transfers.len() implies has_acc(
            mf.accounts,
            (#[trigger] mf.transfers[k]).client_id.0,
        ) by {
            let cid3 = mf.transfers[k].client_id.0;
            if k < m.transfers.len() {
                assert(mf.transfers[k] == m.transfers[k]);
                assert(has_acc(m.accounts, cid3));
                let w = choose|w: int|
                    0 <= w < m.accounts.len() && m.accounts[w].id.0 == cid3;
                if find_acc(m.accounts, cid) is None {
                    if w < j {
                        assert(mf.accounts[w].id.0 == cid3);
                    } else {
                        assert(mf.accounts[w + 1].id.0 == cid3);
                    }
                } else {
                    if w == j {
                        assert(mf.accounts[j].id.0 == cid3);
                    } else {
                        assert(mf.accounts[w].id.0 == cid3);
                    }
                }
            } else {
                assert(mf.transfers[k] == t);
                assert(mf.accounts[j].id.0 == cid3);
            }
            assert(has_acc(mf.accounts, cid3));
        }
    }
}

/// Replaying a dispute-class instruction preserves the ledger invariant.
pub proof fn lemma_dispute_keeps_inv(m: LedgerModel, d: Dispute)
    requires
        inv(m),
    ensures
        inv(spec_apply_dispute(m, d)),
{
    let mf = spec_apply_dispute(m, d);
    if mf == m {
    } else {
        lemma_find_tx_props(m.transfers, d.disputed_tx_id);
        lemma_find_acc_props(m.accounts, d.client_id.0);
    }
    match find_tx(m.transfers, d.disputed_tx_id) {
        None => {
        },
        Some(i) => {
            lemma_find_tx_props(m.transfers, d.disputed_tx_id);
            let t = m.transfers[i];
            match t.typ {
                TransferType::Withdrawal { .. } => {
                },
                TransferType::Deposit(dep) => {
                    if t.client_id.0 == d.client_id.0 {
                        match find_acc(m.accounts, d.client_id.0) {
                            None => {
                            },
                            Some(j) => {
                                lemma_find_acc_props(m.accounts, d.client_id.0);
                                let c = m.accounts[j].client;
                                let acted = match d.state {
                                    DisputeState::Dispute => !dep.disputed && !c.locked
                                        && c.available@ >= dep.amount@,
                                    DisputeState::Resolve => dep.disputed,
                                    DisputeState::Chargeback => dep.disputed && !c.locked,
                                };
                                if acted {
                                    let now_disputed = d.state is Dispute;
                                    let t2 = with_disputed(t, now_disputed);
                                    let c2 = match d.state {
                                        DisputeState::Dispute => held_back(c, dep.amount),
                                        DisputeState::Resolve => released(c, dep.amount),
                                        DisputeState::Chargeback => charged_back(c, dep.amount),
                                    };
                                    if dep.disputed {
                                        lemma_dep_sum_member(m.transfers, i, d.client_id.0);
                                    }
                                    let mf2 = spec_apply_dispute(m, d);
                                    assert(mf2.transfers == m.transfers.update(i, t2));
                                    assert(mf2.accounts == m.accounts.update(
                                        j,
                                        AccountEntry { id: m.accounts[j].id, client: c2 },
                                    ));
                                    assert(accs_sorted(mf2.accounts)) by {
                                        assert(forall|w: int|
                                            0 <= w < m.accounts.len()
                                                ==> (#[trigger] mf2.accounts[w]).id
                                                == m.accounts[w].id);
                                    }
                                    assert(tx_ids_unique(mf2.transfers)) by {
                                        assert(forall|w: int|
                                            0 <= w < m.transfers.len()
                                                ==> (#[trigger] mf2.transfers[w]).id.0
                                                == m.transfers[w].id.0);
                                    }
                                    assert(balanced(c2));
                                    assert forall|c3: u16| true implies dep_sum(
                                        mf2.transfers,
                                        c3,
                                    ) == dep_sum(m.transfers, c3) - held_part(t, c3) + held_part(
                                        t2,
                                        c3,
                                    ) by {
                                        lemma_dep_sum_update(m.transfers, i, t2, c3);
                                    }
                                    assert forall|k: int| 0 <= k < mf2.accounts.len() implies
                                        balanced(#[trigger] mf2.accounts[k].client)
                                        && mf2.accounts[k].client.held@ == dep_sum(
                                        mf2.transfers,
                                        mf2.accounts[k].id.0,
                                    ) by {
                                        if k == j {
                                            assert(held_part(t2, d.client_id.0) == if now_disputed {
                                                dep.amount@ as nat
                                            } else {
                                                0
                                            });
                                        } else {
                                            assert(mf2.accounts[k] == m.accounts[k]);
                                            assert(m.accounts[k].id.0 != d.client_id.0);
                                            assert(held_part(t, m.accounts[k].id.0) == 0);
                                            assert(held_part(t2, m.accounts[k].id.0) == 0);
                                        }
                                    }
                                    assert forall|k: int| 0 <= k < mf2.transfers.len() implies
                                        has_acc(
                                        mf2.accounts,
                                        (#[trigger] mf2.transfers[k]).client_id.0,
                                    ) by {
                                        assert(mf2.transfers[k].client_id.0
                                            == m.transfers[k].client_id.0);
                                        let w = choose|w: int|
                                            0 <= w < m.accounts.len() && m.accounts[w].id.0
                                                == m.transfers[k].client_id.0;
                                        assert(mf2.accounts[w].id.0
                                            == m.transfers[k].client_id.0);
                                    }
                                }
                            },
                        }
                    }
                },
            }
        },
    }
}


/// A sequence of records replayed in order against ledger `m`.
pub open spec fn spec_replay(recs: Seq<InputCsvLine>, m: LedgerModel) -> LedgerModel
    decreases recs.len(),
{
    if recs.len() == 0 {
        m
    } else {
        spec_step(spec_replay(recs.drop_last(), m), recs.last())
    }
}

/// Replaying a transfer whose transaction id the table already holds is
/// a no-op for the whole ledger, whatever the record declares: the line
/// is ignored entirely.
pub proof fn lemma_duplicate_transfer_ignored(m: LedgerModel, t: Transfer)
    requires
        exists|i: int| 0 <= i < m.transfers.len() && (#[trigger] m.transfers[i]).id.0 == t.id.0,
    ensures
        spec_apply_transfer(m, t) == m,
{
    lemma_find_tx_props(m.transfers, t.id);
}

/// The dispute lifecycle is strictly ordered, first half: a resolve or a
/// chargeback whose target deposit is not in the disputed state is a
/// no-op for the whole ledger.
pub proof fn lemma_undisputed_resolve_chargeback_ignored(m: LedgerModel, d: Dispute)
    requires
        d.state is Resolve || d.state is Chargeback,
        match find_tx(m.transfers, d.disputed_tx_id) {
            Some(i) => !is_disputed(m.transfers[i]),
            None => true,
        },
    ensures
        spec_apply_dispute(m, d) == m,
{
}

/// The dispute lifecycle is strictly ordered, second half: a dispute
/// whose target deposit is already in the disputed state is a no-op for
/// the whole ledger.
pub proof fn lemma_repeated_dispute_ignored(m: LedgerModel, d: Dispute)
    requires
        d.state is Dispute,
        match find_tx(m.transfers, d.disputed_tx_id) {
            Some(i) => is_disputed(m.transfers[i]),
            None => true,
        },
    ensures
        spec_apply_dispute(m, d) == m,
{
}

/// A locked account accepts no further deposits or withdrawals: a
/// transfer for a locked client leaves the whole account table
/// untouched, though its id is still recorded for duplicate detection.
pub proof fn lemma_locked_ignores_transfers(m: LedgerModel, t: Transfer)
    requires
        match find_acc(m.accounts, t.client_id.0) {
            Some(j) => m.accounts[j].client.locked,
            None => false,
        },
    ensures
        spec_apply_transfer(m, t).accounts == m.accounts,
{
    if find_tx(m.transfers, t.id) is Some {
    } else {
        let j = insert_pos(m.accounts, t.client_id.0);
        lemma_insert_pos_props(m.accounts, t.client_id.0);
        assert(find_acc(m.accounts, t.client_id.0) is Some);
        assert(0 <= j < m.accounts.len());
        assert(m.accounts[j].id.0 == t.client_id.0);
        assert(m.accounts[j].id == t.client_id);
        assert(ensure_account(m.accounts, t.client_id) == m.accounts);
        assert((AccountEntry { id: t.client_id, client: m.accounts[j].client })
            == m.accounts[j]);
        let upd = m.accounts.update(
            j,
            AccountEntry { id: t.client_id, client: m.accounts[j].client },
        );
        assert forall|k: int| 0 <= k < m.accounts.len() implies upd[k] == m.accounts[k] by {
            if k == j {
                assert(upd[k] == (AccountEntry {
                    id: t.client_id,
                    client: m.accounts[j].client,
                }));
            }
        }
        assert(upd =~= m.accounts);
    }
}

/// A locked account bars new disputes and chargebacks: either
/// instruction aimed at a locked client's deposit is a no-op for the
/// whole ledger. A resolve carries no such guard and still closes an
/// open dispute.
pub proof fn lemma_locked_blocks_dispute_and_chargeback(m: LedgerModel, d: Dispute)
    requires
        d.state is Dispute || d.state is Chargeback,
        match find_acc(m.accounts, d.client_id.0) {
            Some(j) => m.accounts[j].client.locked,
            None => true,
        },
    ensures
        spec_apply_dispute(m, d) == m,
{
}

/// With no dispute-class records in play, every account the replay
/// builds holds nothing back: its held funds are zero and its total
/// equals its available funds.
pub proof fn lemma_transfers_only_keep_held_zero(recs: Seq<InputCsvLine>)
    requires
        forall|k: int| 0 <= k < recs.len() ==> (#[trigger] recs[k]) is Transfer,
    ensures
        forall|j: int|
            0 <= j < spec_replay(recs, ledger_empty()).accounts.len() ==> {
                let c = (#[trigger] spec_replay(recs, ledger_empty()).accounts[j]).client;
                c.held@ == 0 && c.total@ == c.available@ + c.held@
            },
    decreases recs.len(),
{
    if recs.len() > 0 {
        assert(forall|k: int|
            0 <= k < recs.len() - 1 ==> (#[trigger] recs.drop_last()[k]) is Transfer);
        lemma_transfers_only_keep_held_zero(recs.drop_last());
        let m1 = spec_replay(recs.drop_last(), ledger_empty());
        let t = recs.last()->Transfer_0;
        lemma_transfer_step_keeps_held_zero(m1, t);
    }
}

/// One transfer step keeps every account free of held funds when all
/// accounts were, and keeps total equal to available.
proof fn lemma_transfer_step_keeps_held_zero(m: LedgerModel, t: Transfer)
    requires
        forall|j: int|
            0 <= j < m.accounts.len() ==> {
                let c = (#[trigger] m.accounts[j]).client;
                c.held@ == 0 && c.total@ == c.available@
            },
    ensures
        forall|j: int|
            0 <= j < spec_apply_transfer(m, t).accounts.len() ==> {
                let c = (#[trigger] spec_apply_transfer(m, t).accounts[j]).client;
                c.held@ == 0 && c.total@ == c.available@
            },
{
    if find_tx(m.transfers, t.id) is Some {
    } else {
        let accs1 = ensure_account(m.accounts, t.client_id);
        let j = insert_pos(m.accounts, t.client_id.0);
        lemma_insert_pos_props(m.accounts, t.client_id.0);
        if find_acc(m.accounts, t.client_id.0) is None {
            assert(forall|w: int|
                0 <= w < accs1.len() ==> (#[trigger] accs1[w]) == with_inserted(
                    m.accounts,
                    AccountEntry { id: t.client_id, client: client_zero() },
                )[w]);
        }
        assert(forall|w: int|
            0 <= w < accs1.len() ==> {
                let c = (#[trigger] accs1[w]).client;
                c.held@ == 0 && c.total@ == c.available@
            });
        let mf = spec_apply_transfer(m, t);
        assert(forall|w: int|
            0 <= w < mf.accounts.len() && w != j ==> (#[trigger] mf.accounts[w]) == accs1[w]);
    }
}

} // verus!
