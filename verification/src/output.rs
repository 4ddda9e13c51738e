//! Rendering the final account table, or an error, as output rows.
use vstd::prelude::*;

use crate::amount::render_scaled;
use crate::ascii::dec_of;
use crate::tables::AccountEntry;

verus! {

/// One output row: the client id and its balances, comma separated, the
/// locked flag last, closed by a line break.
pub open spec fn render_row(e: AccountEntry) -> Seq<u8> {
    dec_of(e.id.0 as nat) + seq![44u8] + render_scaled(e.client.available@) + seq![44u8]
        + render_scaled(e.client.held@) + seq![44u8] + render_scaled(e.client.total@) + seq![44u8]
        + (if e.client.locked {
        crate::ascii::lit_true_word()
    } else {
        crate::ascii::lit_false_word()
    }) + seq![10u8]
}

/// The output rows of the account table, one per client, in table
/// order.
pub open spec fn render_rows(accs: Seq<AccountEntry>) -> Seq<u8>
    decreases accs.len(),
{
    if accs.len() == 0 {
        Seq::empty()
    } else {
        render_rows(accs.drop_last()) + render_row(accs.last())
    }
}

/// The whole output of a successful run: the header row, then one row
/// per client in account-table order, which is ascending client id.
pub open spec fn render_output(accs: Seq<AccountEntry>) -> Seq<u8> {
    crate::ascii::lit_out_header() + render_rows(accs)
}

/// The whole output of a failed run: a single error line.
pub open spec fn render_error(msg: Seq<u8>) -> Seq<u8> {
    crate::ascii::lit_error_prefix() + msg + seq![10u8]
}

/// Writes the final client states as output rows.
pub(crate) fn write_client_states_to(accs: &Vec<AccountEntry>, out: &mut Vec<u8>)
    ensures
        final(out)@ == old(out)@ + render_output(accs@),
{
    let h = crate::ascii::lit_out_header_arr();
    crate::ascii::push_bytes(out, h.as_slice());
    let mut i: usize = 0;
    while i < accs.len()
        invariant
            i <= accs@.len(),
            out@ == old(out)@ + crate::ascii::lit_out_header() + render_rows(accs@.take(i as int)),
        decreases accs@.len() - i,
    {
        let e = accs[i];
        crate::ascii::push_dec(e.id.0 as u64, out);
        out.push(44);
        e.client.available.push_render(out);
        out.push(44);
        e.client.held.push_render(out);
        out.push(44);
        e.client.total.push_render(out);
        out.push(44);
        if e.client.locked {
            let w = crate::ascii::lit_true_word_arr();
            crate::ascii::push_bytes(out, w.as_slice());
        } else {
            let w = crate::ascii::lit_false_word_arr();
            crate::ascii::push_bytes(out, w.as_slice());
        }
        out.push(10);
        proof {
            assert(accs@.take(i + 1).drop_last() =~= accs@.take(i as int));
            assert(accs@.take(i + 1).last() == accs@[i as int]);
            assert(out@ =~= old(out)@ + crate::ascii::lit_out_header() + render_rows(
                accs@.take(i + 1),
            ));
        }
        i = i + 1;
    }
    proof {
        assert(accs@.take(accs@.len() as int) =~= accs@);
        assert(out@ =~= old(out)@ + render_output(accs@));
    }
}

/// Writes a run-ending failure as the single error line.
pub(crate) fn write_error_to(msg: &[u8], out: &mut Vec<u8>)
    ensures
        final(out)@ == old(out)@ + render_error(msg@),
{
    let p = crate::ascii::lit_error_prefix_arr();
    crate::ascii::push_bytes(out, p.as_slice());
    crate::ascii::push_bytes(out, msg);
    out.push(10);
    proof {
        assert(out@ =~= old(out)@ + render_error(msg@));
    }
}

} // verus!
