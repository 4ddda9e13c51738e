//! Turning one raw input row into a typed transaction record, and
//! checking the header row.
use vstd::prelude::*;

use crate::amount::{spec_parse_amount, Amount};
use crate::ascii::{dec_of, lower, split_seq, spec_parse_uint, trim};
use crate::client::ClientId;
use crate::engine::{fresh_record, InputCsvLine};
use crate::transaction::{DepositedTransaction, Dispute, DisputeState, TransactionId, Transfer,
    TransferType};
use crate::CsvParsingError;

verus! {

/// The header row is valid when it has exactly the four expected column
/// names, in order, case-insensitively, each stripped of surrounding
/// whitespace.
pub open spec fn spec_header_ok(l: Seq<u8>) -> bool {
    let fs = split_seq(l, 44);
    &&& fs.len() == 4
    &&& lower(trim(fs[0])) == crate::ascii::lit_type_name()
    &&& lower(trim(fs[1])) == crate::ascii::lit_client_name()
    &&& lower(trim(fs[2])) == crate::ascii::lit_tx_name()
    &&& lower(trim(fs[3])) == crate::ascii::lit_amount_name()
}

/// The message for a client id that does not parse on data row `row`.
pub open spec fn msg_invalid_client(row: nat) -> Seq<u8> {
    crate::ascii::lit_invalid_client() + dec_of(row)
}

/// The message for a transaction id that does not parse on data row
/// `row`.
pub open spec fn msg_invalid_tx(row: nat) -> Seq<u8> {
    crate::ascii::lit_invalid_tx() + dec_of(row)
}

/// The message for an amount that does not parse on data row `row`.
pub open spec fn msg_invalid_amount(row: nat) -> Seq<u8> {
    crate::ascii::lit_invalid_amount() + dec_of(row)
}

/// The message for an unrecognized transaction-type token.
pub open spec fn msg_invalid_type(typ: Seq<u8>) -> Seq<u8> {
    crate::ascii::lit_invalid_type() + typ
}

/// What parsing data row `row` with content `l` yields: a typed record,
/// or the message of the first field that fails. The client id field is
/// checked first, then the transaction id, then the type token; a
/// deposit or withdrawal then needs a valid amount field.
pub open spec fn spec_parse_row(l: Seq<u8>, row: nat) -> Result<InputCsvLine, Seq<u8>> {
    let fs = split_seq(l, 44);
    let typ = trim(fs[0]);
    let client = if fs.len() >= 2 {
        spec_parse_uint(trim(fs[1]), 65535)
    } else {
        None
    };
    match client {
        None => Err(msg_invalid_client(row)),
        Some(cv) => {
            let tx = if fs.len() >= 3 {
                spec_parse_uint(trim(fs[2]), 4294967295)
            } else {
                None
            };
            match tx {
                None => Err(msg_invalid_tx(row)),
                Some(tv) => {
                    let tid = TransactionId(tv as u32);
                    let cid = ClientId(cv as u16);
                    if typ == crate::ascii::lit_deposit() || typ
                        == crate::ascii::lit_withdrawal() {
                        let am = if fs.len() >= 4 {
                            spec_parse_amount(trim(fs[3]))
                        } else {
                            None
                        };
                        match am {
                            None => Err(msg_invalid_amount(row)),
                            Some(av) => Ok(
                                InputCsvLine::Transfer(
                                    Transfer {
                                        id: tid,
                                        client_id: cid,
                                        typ: if typ == crate::ascii::lit_deposit() {
                                            TransferType::Deposit(
                                                DepositedTransaction {
                                                    amount: Amount(av),
                                                    disputed: false,
                                                },
                                            )
                                        } else {
                                            TransferType::Withdrawal { amount: Amount(av) }
                                        },
                                    },
                                ),
                            ),
                        }
                    } else if typ == crate::ascii::lit_dispute() {
                        Ok(
                            InputCsvLine::Dispute(
                                Dispute {
                                    disputed_tx_id: tid,
                                    client_id: cid,
                                    state: DisputeState::Dispute,
                                },
                            ),
                        )
                    } else if typ == crate::ascii::lit_resolve() {
                        Ok(
                            InputCsvLine::Dispute(
                                Dispute {
                                    disputed_tx_id: tid,
                                    client_id: cid,
                                    state: DisputeState::Resolve,
                                },
                            ),
                        )
                    } else if typ == crate::ascii::lit_chargeback() {
                        Ok(
                            InputCsvLine::Dispute(
                                Dispute {
                                    disputed_tx_id: tid,
                                    client_id: cid,
                                    state: DisputeState::Chargeback,
                                },
                            ),
                        )
                    } else {
                        Err(msg_invalid_type(typ))
                    }
                },
            }
        },
    }
}

/// A parsed record enters the ledger fresh: a transfer is not yet
/// disputed.
pub proof fn lemma_parse_row_fresh(l: Seq<u8>, row: nat)
    ensures
        spec_parse_row(l, row) matches Ok(rec) ==> fresh_record(rec),
{
}

/// Checks the header row: exactly the four columns type, client, tx,
/// amount, in that order.
pub fn validate_header(line: &[u8]) -> (r: Result<(), CsvParsingError>)
    ensures
        r is Ok <==> spec_header_ok(line@),
        r matches Err(e) ==> e@ == crate::ascii::lit_expected_columns(),
{
    let fields = crate::ascii::split_slice(line, 44);
    proof {
        crate::ascii::lemma_split_len(line@, 44);
    }
    let ok: bool = if fields.len() != 4 {
        false
    } else {
        let f0 = crate::ascii::lower_vec(crate::ascii::trim_slice(fields[0].as_slice()));
        let f1 = crate::ascii::lower_vec(crate::ascii::trim_slice(fields[1].as_slice()));
        let f2 = crate::ascii::lower_vec(crate::ascii::trim_slice(fields[2].as_slice()));
        let f3 = crate::ascii::lower_vec(crate::ascii::trim_slice(fields[3].as_slice()));
        let a0 = crate::ascii::lit_type_name_arr();
        let a1 = crate::ascii::lit_client_name_arr();
        let a2 = crate::ascii::lit_tx_name_arr();
        let a3 = crate::ascii::lit_amount_name_arr();
        crate::ascii::bytes_eq(f0.as_slice(), a0.as_slice())
            && crate::ascii::bytes_eq(f1.as_slice(), a1.as_slice())
            && crate::ascii::bytes_eq(f2.as_slice(), a2.as_slice())
            && crate::ascii::bytes_eq(f3.as_slice(), a3.as_slice())
    };
    if ok {
        Ok(())
    } else {
        let a = crate::ascii::lit_expected_columns_arr();
        let mut msg: Vec<u8> = Vec::new();
        crate::ascii::push_bytes(&mut msg, a.as_slice());
        Err(CsvParsingError::new(msg))
    }
}

/// Builds the message of a field error on data row `row`.
fn msg_with_row(prefix: &[u8], row: usize) -> (r: Vec<u8>)
    ensures
        r@ == prefix@ + dec_of(row as nat),
{
    let mut msg: Vec<u8> = Vec::new();
    crate::ascii::push_bytes(&mut msg, prefix);
    crate::ascii::push_dec(row as u64, &mut msg);
    msg
}

/// Parses a single data row into a typed record, or reports which field
/// failed, naming the 1-based data row index.
pub fn parse_transaction(line_index: usize, line: &[u8]) -> (r: Result<
    InputCsvLine,
    CsvParsingError,
>)
    ensures
        match r {
            Ok(rec) => spec_parse_row(line@, line_index as nat) == Ok::<
                InputCsvLine,
                Seq<u8>,
            >(rec),
            Err(e) => spec_parse_row(line@, line_index as nat) matches Err(m) && e@ == m,
        },
{
    let fields = crate::ascii::split_slice(line, 44);
    proof {
        crate::ascii::lemma_split_len(line@, 44);
    }
    let client: Option<u64> = if fields.len() >= 2 {
        crate::ascii::parse_uint(crate::ascii::trim_slice(fields[1].as_slice()), 65535)
    } else {
        None
    };
    let cv: u64 = match client {
        None => {
            let a = crate::ascii::lit_invalid_client_arr();
            return Err(CsvParsingError::new(msg_with_row(a.as_slice(), line_index)));
        },
        Some(v) => v,
    };
    let tx: Option<u64> = if fields.len() >= 3 {
        crate::ascii::parse_uint(crate::ascii::trim_slice(fields[2].as_slice()), 4294967295)
    } else {
        None
    };
    let tv: u64 = match tx {
        None => {
            let a = crate::ascii::lit_invalid_tx_arr();
            return Err(CsvParsingError::new(msg_with_row(a.as_slice(), line_index)));
        },
        Some(v) => v,
    };
    let tid = TransactionId(tv as u32);
    let cid = ClientId(cv as u16);
    let typ = crate::ascii::trim_slice(fields[0].as_slice());
    let dep_a = crate::ascii::lit_deposit_arr();
    let wit_a = crate::ascii::lit_withdrawal_arr();
    let is_dep = crate::ascii::bytes_eq(typ, dep_a.as_slice());
    let is_wit = crate::ascii::bytes_eq(typ, wit_a.as_slice());
    if is_dep || is_wit {
        let am: Option<Amount> = if fields.len() >= 4 {
            Amount::parse_bytes(crate::ascii::trim_slice(fields[3].as_slice()))
        } else {
            None
        };
        match am {
            None => {
                let a = crate::ascii::lit_invalid_amount_arr();
                Err(CsvParsingError::new(msg_with_row(a.as_slice(), line_index)))
            },
            Some(av) => Ok(
                InputCsvLine::Transfer(
                    Transfer {
                        id: tid,
                        client_id: cid,
                        typ: if is_dep {
                            TransferType::Deposit(
                                DepositedTransaction { amount: av, disputed: false },
                            )
                        } else {
                            TransferType::Withdrawal { amount: av }
                        },
                    },
                ),
            ),
        }
    } else {
        let dis_a = crate::ascii::lit_dispute_arr();
        let res_a = crate::ascii::lit_resolve_arr();
        let chb_a = crate::ascii::lit_chargeback_arr();
        if crate::ascii::bytes_eq(typ, dis_a.as_slice()) {
            Ok(
                InputCsvLine::Dispute(
                    Dispute { disputed_tx_id: tid, client_id: cid, state: DisputeState::Dispute },
                ),
            )
        } else if crate::ascii::bytes_eq(typ, res_a.as_slice()) {
            Ok(
                InputCsvLine::Dispute(
                    Dispute { disputed_tx_id: tid, client_id: cid, state: DisputeState::Resolve },
                ),
            )
        } else if crate::ascii::bytes_eq(typ, chb_a.as_slice()) {
            Ok(
                InputCsvLine::Dispute(
                    Dispute {
                        disputed_tx_id: tid,
                        client_id: cid,
                        state: DisputeState::Chargeback,
                    },
                ),
            )
        } else {
            let a = crate::ascii::lit_invalid_type_arr();
            let mut msg: Vec<u8> = Vec::new();
            crate::ascii::push_bytes(&mut msg, a.as_slice());
            crate::ascii::push_bytes(&mut msg, typ);
            Err(CsvParsingError::new(msg))
        }
    }
}

} // verus!
