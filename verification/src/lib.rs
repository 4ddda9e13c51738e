//! A ledger-replay engine: it folds an ordered stream of transaction
//! rows (deposits, withdrawals, disputes, resolutions, chargebacks) into
//! the final per-client account state, with exact four-place fixed-point
//! arithmetic for all monetary values.
use vstd::prelude::*;

pub mod amount;
pub mod ascii;
pub mod client;
pub mod engine;
pub mod output;
pub mod parser;
pub mod tables;
pub mod transaction;

use crate::ascii::clean_line;
use crate::ascii::split_seq;
use crate::engine::{inv, ledger_empty, spec_step, Ledger, LedgerModel};
use crate::output::{render_error, render_output};
use crate::parser::{spec_header_ok, spec_parse_row};

verus! {

/// The failure of a run: a malformed header or an unparseable field.
/// Its view is the message text.
#[derive(Debug)]
pub struct CsvParsingError {
    details: Vec<u8>,
}

impl View for CsvParsingError {
    type V = Seq<u8>;

    closed spec fn view(&self) -> Seq<u8> {
        self.details@
    }
}

impl CsvParsingError {
    /// Wraps a message.
    pub fn new(details: Vec<u8>) -> (r: CsvParsingError)
        ensures
            r@ == details@,
    {
        CsvParsingError { details }
    }

    /// The message text.
    pub fn message(&self) -> (r: &Vec<u8>)
        ensures
            r@ == self@,
    {
        &self.details
    }
}

/// The first line, in input order, that is not empty once a trailing
/// carriage return is dropped: the header row. `lines.len()` when every
/// line is empty.
pub open spec fn spec_find_header(lines: Seq<Seq<u8>>, i: int) -> int
    decreases lines.len() - i,
{
    if i >= lines.len() {
        lines.len() as int
    } else if clean_line(lines[i]).len() != 0 {
        i
    } else {
        spec_find_header(lines, i + 1)
    }
}

/// The data rows from line `i` on, replayed in order against ledger
/// `m`: empty lines are skipped, every other line is the next 1-based
/// data row (`row` of them came before), and the first row that fails
/// to parse ends the run with its message.
pub open spec fn spec_run_rows(lines: Seq<Seq<u8>>, i: int, row: nat, m: LedgerModel) -> Result<
    LedgerModel,
    Seq<u8>,
>
    decreases lines.len() - i,
{
    if i >= lines.len() {
        Ok(m)
    } else {
        let l = clean_line(lines[i]);
        if l.len() == 0 {
            spec_run_rows(lines, i + 1, row, m)
        } else {
            match spec_parse_row(l, (row + 1) as nat) {
                Err(msg) => Err(msg),
                Ok(rec) => spec_run_rows(lines, i + 1, (row + 1) as nat, spec_step(m, rec)),
            }
        }
    }
}

/// What a whole run computes before rendering: the final ledger, or the
/// message of the first failure. The input splits into lines; the first
/// non-empty line must be a valid header; the rest are data rows.
pub open spec fn spec_run_all(input: Seq<u8>) -> Result<LedgerModel, Seq<u8>> {
    let lines = split_seq(input, 10);
    let h = spec_find_header(lines, 0);
    if h >= lines.len() || !spec_header_ok(clean_line(lines[h])) {
        Err(crate::ascii::lit_expected_columns())
    } else {
        spec_run_rows(lines, h + 1, 0, ledger_empty())
    }
}

/// The output of a whole run: the account rows of the final ledger,
/// sorted by client id, or a single error line.
pub open spec fn spec_process(input: Seq<u8>) -> Seq<u8> {
    match spec_run_all(input) {
        Ok(m) => render_output(m.accounts),
        Err(msg) => render_error(msg),
    }
}

proof fn lemma_find_header_exact(lines: Seq<Seq<u8>>, i0: int, h: int)
    requires
        0 <= i0 <= h <= lines.len(),
        forall|k: int| i0 <= k < h ==> clean_line(#[trigger] lines[k]).len() == 0,
        h < lines.len() ==> clean_line(lines[h]).len() != 0,
    ensures
        spec_find_header(lines, i0) == h,
    decreases h - i0,
{
    if i0 < h {
        lemma_find_header_exact(lines, i0 + 1, h);
    }
}

/// Reads the rows of `input` and replays them, as `spec_run_all` says.
pub fn run_transactions(input: &[u8]) -> (r: Result<Ledger, CsvParsingError>)
    ensures
        match r {
            Ok(led) => spec_run_all(input@) == Ok::<LedgerModel, Seq<u8>>(led@) && inv(led@),
            Err(e) => spec_run_all(input@) matches Err(msg) && e@ == msg,
        },
{
    let ghost lseq = split_seq(input@, 10);
    let lines = crate::ascii::split_slice(input, 10);
    let mut h: usize = 0;
    loop
        invariant_except_break
            lseq == split_seq(input@, 10),
            lines@.len() == lseq.len(),
            forall|k: int| 0 <= k < lines@.len() ==> lines@[k]@ == lseq[k],
            0 <= h <= lines@.len(),
            forall|k: int| 0 <= k < h ==> clean_line(#[trigger] lseq[k]).len() == 0,
        ensures
            lseq == split_seq(input@, 10),
            lines@.len() == lseq.len(),
            forall|k: int| 0 <= k < lines@.len() ==> lines@[k]@ == lseq[k],
            h <= lines@.len(),
            spec_find_header(lseq, 0) == h,
            h < lines@.len() ==> clean_line(lseq[h as int]).len() != 0,
        decreases lines@.len() - h,
    {
        if h >= lines.len() {
            proof {
                lemma_find_header_exact(lseq, 0, h as int);
            }
            break ;
        }
        let cl = crate::ascii::clean_slice(lines[h].as_slice());
        if cl.len() != 0 {
            proof {
                lemma_find_header_exact(lseq, 0, h as int);
            }
            break ;
        }
        h = h + 1;
    }
    if h >= lines.len() {
        let a = crate::ascii::lit_expected_columns_arr();
        let mut msg: Vec<u8> = Vec::new();
        crate::ascii::push_bytes(&mut msg, a.as_slice());
        return Err(CsvParsingError::new(msg));
    }
    let header = crate::ascii::clean_slice(lines[h].as_slice());
    match crate::parser::validate_header(header) {
        Err(e) => {
            return Err(e);
        },
        Ok(()) => {
        },
    }
    let mut ledger = Ledger::new();
    let mut row: usize = 0;
    let mut i: usize = h + 1;
    while i < lines.len()
        invariant
            lseq == split_seq(input@, 10),
            lines@.len() == lseq.len(),
            forall|k: int| 0 <= k < lines@.len() ==> lines@[k]@ == lseq[k],
            h < lines@.len(),
            h + 1 <= i <= lines@.len(),
            row + 1 <= i,
            inv(ledger@),
            spec_run_rows(lseq, h + 1, 0, ledger_empty()) == spec_run_rows(
                lseq,
                i as int,
                row as nat,
                ledger@,
            ),
            spec_find_header(lseq, 0) == h,
            clean_line(lseq[h as int]).len() != 0,
            spec_header_ok(clean_line(lseq[h as int])),
        decreases lines@.len() - i,
    {
        let cl = crate::ascii::clean_slice(lines[i].as_slice());
        if cl.len() != 0 {
            match crate::parser::parse_transaction(row + 1, cl) {
                Err(e) => {
                    return Err(e);
                },
                Ok(rec) => {
                    proof {
                        crate::parser::lemma_parse_row_fresh(
                            clean_line(lseq[i as int]),
                            (row + 1) as nat,
                        );
                    }
                    ledger.apply(rec);
                    row = row + 1;
                },
            }
        }
        i = i + 1;
    }
    Ok(ledger)
}

/// Reads the whole tabular input from `input` and appends the resulting
/// rows, the final account states or a single error line, to `output`.
pub fn process_input_then_write_output(input: &[u8], output: &mut Vec<u8>)
    ensures
        final(output)@ == old(output)@ + spec_process(input@),
{
    match run_transactions(input) {
        Ok(led) => {
            crate::output::write_client_states_to(&led.accounts, output);
        },
        Err(e) => {
            crate::output::write_error_to(e.message().as_slice(), output);
        },
    }
}

} // verus!
