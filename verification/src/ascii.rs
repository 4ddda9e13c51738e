//! Byte-level helpers for the tabular text format: ASCII classification,
//! splitting and trimming, decimal digit parsing and rendering, and the
//! literal byte sequences that the format uses.
use vstd::prelude::*;

verus! {

/// `b` is an ASCII decimal digit.
pub open spec fn is_digit(b: u8) -> bool {
    48 <= b <= 57
}

/// `b` is whitespace that surrounding a field is stripped of.
pub open spec fn is_space(b: u8) -> bool {
    b == 32 || b == 9 || b == 13
}

/// ASCII lower-casing of one byte.
pub open spec fn to_lower(b: u8) -> u8 {
    if 65 <= b <= 90 {
        (b + 32) as u8
    } else {
        b
    }
}

/// ASCII lower-casing of a byte sequence.
pub open spec fn lower(s: Seq<u8>) -> Seq<u8> {
    s.map_values(|b: u8| to_lower(b))
}

/// Every byte of `s` is a decimal digit.
pub open spec fn all_digits(s: Seq<u8>) -> bool {
    forall|i: int| 0 <= i < s.len() ==> is_digit(#[trigger] s[i])
}

/// The number that the digit sequence `s` denotes, most significant digit
/// first.
pub open spec fn digits_val(s: Seq<u8>) -> nat
    decreases s.len(),
{
    if s.len() == 0 {
        0
    } else {
        digits_val(s.drop_last()) * 10 + (s.last() - 48) as nat
    }
}

/// The decimal digit sequence of `n`, without leading zeros (`0` itself is
/// the single digit `0`).
pub open spec fn dec_of(n: nat) -> Seq<u8>
    decreases n,
{
    if n < 10 {
        seq![(48 + n) as u8]
    } else {
        dec_of(n / 10) + seq![(48 + n % 10) as u8]
    }
}

/// `s` split at every occurrence of `sep`; `n` separators give `n + 1`
/// parts.
pub open spec fn split_seq(s: Seq<u8>, sep: u8) -> Seq<Seq<u8>>
    decreases s.len(),
{
    if s.len() == 0 {
        seq![Seq::<u8>::empty()]
    } else {
        let r = split_seq(s.skip(1), sep);
        if s[0] == sep {
            seq![Seq::<u8>::empty()] + r
        } else {
            seq![seq![s[0]] + r[0]] + r.skip(1)
        }
    }
}

/// A split has at least one part.
pub proof fn lemma_split_len(s: Seq<u8>, sep: u8)
    ensures
        split_seq(s, sep).len() >= 1,
    decreases s.len(),
{
    if s.len() > 0 {
        lemma_split_len(s.skip(1), sep);
    }
}

/// If the first `k` bytes of `s` are free of `sep` and `s[k]`, if present,
/// is `sep`, then the first part of the split is `s.take(k)` and the rest
/// splits `s.skip(k + 1)`.
pub proof fn lemma_split_at(s: Seq<u8>, sep: u8, k: int)
    requires
        0 <= k <= s.len(),
        forall|i: int| 0 <= i < k ==> s[i] != sep,
        k < s.len() ==> s[k] == sep,
    ensures
        k == s.len() ==> split_seq(s, sep) == seq![s],
        k < s.len() ==> split_seq(s, sep) == seq![s.take(k)] + split_seq(s.skip(k + 1), sep),
    decreases k,
{
    if k == 0 {
        if s.len() == 0 {
            assert(split_seq(s, sep) =~~= seq![s]);
        } else {
            assert(s[0] == sep);
            assert(s.take(0) =~= Seq::<u8>::empty());
            assert(split_seq(s, sep) =~~= seq![s.take(0)] + split_seq(s.skip(1), sep));
        }
    } else {
        assert(s[0] != sep);
        let t = s.skip(1);
        assert(forall|i: int| 0 <= i < k - 1 ==> t[i] != sep);
        assert(k - 1 < t.len() ==> t[k - 1] == sep);
        lemma_split_at(t, sep, k - 1);
        lemma_split_len(t, sep);
        let r = split_seq(t, sep);
        if k == s.len() {
            assert(r == seq![t]);
            assert(seq![s[0]] + r[0] =~= s);
            assert(r.skip(1) =~= Seq::<Seq<u8>>::empty());
            assert(split_seq(s, sep) =~~= seq![s]);
        } else {
            assert(r == seq![t.take(k - 1)] + split_seq(t.skip(k), sep));
            assert(r[0] == t.take(k - 1));
            assert(seq![s[0]] + t.take(k - 1) =~= s.take(k));
            assert(t.skip(k) =~= s.skip(k + 1));
            assert(r.skip(1) =~= split_seq(s.skip(k + 1), sep));
            assert(split_seq(s, sep) =~~= seq![s.take(k)] + split_seq(s.skip(k + 1), sep));
        }
    }
}

/// `s` with leading whitespace removed.
pub open spec fn trim_front(s: Seq<u8>) -> Seq<u8>
    decreases s.len(),
{
    if s.len() > 0 && is_space(s[0]) {
        trim_front(s.skip(1))
    } else {
        s
    }
}

/// `s` with trailing whitespace removed.
pub open spec fn trim_back(s: Seq<u8>) -> Seq<u8>
    decreases s.len(),
{
    if s.len() > 0 && is_space(s.last()) {
        trim_back(s.drop_last())
    } else {
        s
    }
}

/// `s` with surrounding whitespace removed.
pub open spec fn trim(s: Seq<u8>) -> Seq<u8> {
    trim_back(trim_front(s))
}

proof fn lemma_trim_front_skip(s: Seq<u8>, k: int)
    requires
        0 <= k <= s.len(),
        forall|i: int| 0 <= i < k ==> is_space(#[trigger] s[i]),
        k < s.len() ==> !is_space(s[k]),
    ensures
        trim_front(s) == s.skip(k),
    decreases s.len(),
{
    if k == 0 {
        assert(s.skip(0) =~= s);
    } else {
        assert(is_space(s[0]));
        assert(forall|i: int| 0 <= i < k - 1 ==> is_space(#[trigger] s.skip(1)[i]));
        lemma_trim_front_skip(s.skip(1), k - 1);
        assert(s.skip(1).skip(k - 1) =~= s.skip(k));
    }
}

proof fn lemma_trim_back_take(s: Seq<u8>, h: int)
    requires
        0 <= h <= s.len(),
        forall|i: int| h <= i < s.len() ==> is_space(#[trigger] s[i]),
        h > 0 ==> !is_space(s[h - 1]),
    ensures
        trim_back(s) == s.take(h),
    decreases s.len(),
{
    if h == s.len() {
        if s.len() == 0 || !is_space(s.last()) {
            assert(s.take(h) =~= s);
        } else {
            assert(!is_space(s[h - 1]));
            assert(false);
        }
    } else {
        assert(is_space(s.last()));
        assert(forall|i: int| h <= i < s.len() - 1 ==> is_space(#[trigger] s.drop_last()[i]));
        lemma_trim_back_take(s.drop_last(), h);
        assert(s.drop_last().take(h) =~= s.take(h));
    }
}

/// Appends `s` to `out`.
pub(crate) fn push_bytes(out: &mut Vec<u8>, s: &[u8])
    ensures
        final(out)@ == old(out)@ + s@,
{
    let mut i: usize = 0;
    while i < s.len()
        invariant
            i <= s.len(),
            out@ == old(out)@ + s@.take(i as int),
        decreases s.len() - i,
    {
        out.push(s[i]);
        proof {
            assert(s@.take(i as int).push(s@[i as int]) =~= s@.take(i + 1));
        }
        i = i + 1;
    }
    proof {
        assert(s@.take(s@.len() as int) =~= s@);
    }
}

/// Whether two byte slices hold the same bytes.
pub(crate) fn bytes_eq(a: &[u8], b: &[u8]) -> (r: bool)
    ensures
        r == (a@ == b@),
{
    if a.len() != b.len() {
        proof {
            assert(a@ != b@);
        }
        return false;
    }
    let mut i: usize = 0;
    while i < a.len()
        invariant
            i <= a.len(),
            a@.len() == b@.len(),
            forall|j: int| 0 <= j < i ==> a@[j] == b@[j],
        decreases a.len() - i,
    {
        if a[i] != b[i] {
            return false;
        }
        i = i + 1;
    }
    proof {
        assert(a@ =~= b@);
    }
    true
}

/// Strips surrounding whitespace from a byte slice.
pub(crate) fn trim_slice(s: &[u8]) -> (r: &[u8])
    ensures
        r@ == trim(s@),
{
    let mut lo: usize = 0;
    while lo < s.len() && (s[lo] == 32 || s[lo] == 9 || s[lo] == 13)
        invariant
            lo <= s.len(),
            forall|i: int| 0 <= i < lo ==> is_space(#[trigger] s@[i]),
        decreases s.len() - lo,
    {
        lo = lo + 1;
    }
    proof {
        lemma_trim_front_skip(s@, lo as int);
    }
    let mut hi: usize = s.len();
    while hi > lo && (s[hi - 1] == 32 || s[hi - 1] == 9 || s[hi - 1] == 13)
        invariant
            lo <= hi <= s.len(),
            forall|i: int| hi <= i < s.len() ==> is_space(#[trigger] s@[i]),
        decreases hi,
    {
        hi = hi - 1;
    }
    let r = vstd::slice::slice_subrange(s, lo, hi);
    proof {
        let f = s@.skip(lo as int);
        assert(forall|i: int| hi - lo <= i < f.len() ==> is_space(#[trigger] f[i]));
        if hi > lo {
            assert(!is_space(f[hi - lo - 1]));
        }
        lemma_trim_back_take(f, hi - lo);
        assert(f.take(hi - lo) =~= s@.subrange(lo as int, hi as int));
    }
    r
}

/// Lower-cases a byte slice.
pub(crate) fn lower_vec(s: &[u8]) -> (r: Vec<u8>)
    ensures
        r@ == lower(s@),
{
    let mut r: Vec<u8> = Vec::new();
    let mut i: usize = 0;
    while i < s.len()
        invariant
            i <= s.len(),
            r@ == lower(s@.take(i as int)),
        decreases s.len() - i,
    {
        let b = s[i];
        if 65 <= b && b <= 90 {
            r.push(b + 32);
        } else {
            r.push(b);
        }
        proof {
            assert(lower(s@.take(i + 1)) =~= lower(s@.take(i as int)).push(to_lower(s@[i as int])));
        }
        i = i + 1;
    }
    proof {
        assert(s@.take(s@.len() as int) =~= s@);
    }
    r
}

/// Splits a byte slice at every occurrence of `sep`.
pub(crate) fn split_slice(s: &[u8], sep: u8) -> (r: Vec<Vec<u8>>)
    ensures
        r@.len() == split_seq(s@, sep).len(),
        forall|i: int| 0 <= i < r@.len() ==> r@[i]@ == split_seq(s@, sep)[i],
{
    let mut r: Vec<Vec<u8>> = Vec::new();
    let mut start: usize = 0;
    proof {
        assert(s@.skip(0) =~= s@);
    }
    loop
        invariant_except_break
            start <= s.len(),
            split_seq(s@, sep).len() == r@.len() + split_seq(s@.skip(start as int), sep).len(),
            forall|i: int| 0 <= i < r@.len() ==> r@[i]@ == split_seq(s@, sep)[i],
            forall|i: int|
                r@.len() <= i < split_seq(s@, sep).len() ==> split_seq(s@, sep)[i] == split_seq(
                    s@.skip(start as int),
                    sep,
                )[i - r@.len()],
        ensures
            r@.len() == split_seq(s@, sep).len(),
            forall|i: int| 0 <= i < r@.len() ==> r@[i]@ == split_seq(s@, sep)[i],
        decreases s.len() - start + 1,
    {
        let mut j: usize = start;
        while j < s.len() && s[j] != sep
            invariant
                start <= j <= s.len(),
                forall|i: int| start <= i < j ==> s@[i] != sep,
            decreases s.len() - j,
        {
            j = j + 1;
        }
        let field = vstd::slice::slice_subrange(s, start, j);
        proof {
            let suf = s@.skip(start as int);
            let k = j - start;
            assert(forall|i: int| 0 <= i < k ==> suf[i] != sep);
            if k < suf.len() {
                assert(suf[k] == s@[j as int]);
            }
            lemma_split_at(suf, sep, k);
            assert(suf.take(k) =~= s@.subrange(start as int, j as int));
            if j < s.len() {
                assert(suf.skip(k + 1) =~= s@.skip(j + 1));
                lemma_split_len(s@.skip(j + 1), sep);
            } else {
                assert(suf =~= s@.subrange(start as int, j as int));
            }
        }
        let mut fv: Vec<u8> = Vec::new();
        push_bytes(&mut fv, field);
        r.push(fv);
        if j == s.len() {
            break;
        }
        start = j + 1;
    }
    r
}

/// Parses an unsigned decimal integer no larger than `max`, allowing one
/// leading `+`; anything else gives `None`.
pub open spec fn spec_parse_uint(s: Seq<u8>, max: u64) -> Option<u64> {
    let digs = if s.len() > 0 && s[0] == 43 {
        s.skip(1)
    } else {
        s
    };
    if digs.len() > 0 && all_digits(digs) && digits_val(digs) <= max {
        Some(digits_val(digs) as u64)
    } else {
        None
    }
}

/// Parses the digits `digs` as a number, `None` when malformed or above
/// `max`.
pub(crate) fn parse_digits(digs: &[u8], max: u64) -> (r: Option<u64>)
    ensures
        r == (if digs@.len() > 0 && all_digits(digs@) && digits_val(digs@) <= max {
            Some(digits_val(digs@) as u64)
        } else {
            None::<u64>
        }),
{
    if digs.len() == 0 {
        return None;
    }
    let mut acc: u64 = 0;
    let mut over = false;
    let mut i: usize = 0;
    while i < digs.len()
        invariant
            i <= digs.len(),
            max <= u64::MAX,
            forall|j: int| 0 <= j < i ==> is_digit(#[trigger] digs@[j]),
            !over ==> acc == digits_val(digs@.take(i as int)) && acc <= max,
            over ==> digits_val(digs@.take(i as int)) > max,
        decreases digs.len() - i,
    {
        let b = digs[i];
        if b < 48 || b > 57 {
            return None;
        }
        let d = (b - 48) as u64;
        proof {
            assert(digs@.take(i + 1).drop_last() =~= digs@.take(i as int));
            assert(digs@.take(i + 1).last() == digs@[i as int]);
            assert(digits_val(digs@.take(i + 1)) == digits_val(digs@.take(i as int)) * 10 + d);
        }
        if !over {
            if d > max {
                over = true;
            } else if acc > (max - d) / 10 {
                over = true;
                proof {
                    assert(acc * 10 + d > max) by {
                        assert(acc >= (max - d) / 10 + 1);
                        assert(acc * 10 >= ((max - d) / 10 + 1) * 10);
                    };
                }
            } else {
                proof {
                    assert(acc * 10 + d <= max) by {
                        assert(acc <= (max - d) / 10);
                        assert(acc * 10 <= ((max - d) / 10) * 10);
                    };
                }
                acc = acc * 10 + d;
            }
        } else {
            proof {
                assert(digits_val(digs@.take(i + 1)) > max);
            }
        }
        i = i + 1;
    }
    proof {
        assert(digs@.take(digs@.len() as int) =~= digs@);
    }
    if over {
        None
    } else {
        Some(acc)
    }
}

/// Parses an unsigned decimal integer field.
pub(crate) fn parse_uint(s: &[u8], max: u64) -> (r: Option<u64>)
    ensures
        r == spec_parse_uint(s@, max),
{
    if s.len() > 0 && s[0] == 43 {
        let digs = vstd::slice::slice_subrange(s, 1, s.len());
        proof {
            assert(s@.subrange(1, s@.len() as int) =~= s@.skip(1));
        }
        parse_digits(digs, max)
    } else {
        parse_digits(s, max)
    }
}

/// Appends the decimal rendering of `n` to `out`.
pub(crate) fn push_dec(n: u64, out: &mut Vec<u8>)
    ensures
        final(out)@ == old(out)@ + dec_of(n as nat),
    decreases n,
{
    if n < 10 {
        out.push(48 + n as u8);
        proof {
            assert(old(out)@ + dec_of(n as nat) =~= old(out)@.push((48 + n) as u8));
        }
    } else {
        push_dec(n / 10, out);
        out.push(48 + (n % 10) as u8);
        proof {
            assert(old(out)@ + dec_of(n as nat) =~= (old(out)@ + dec_of((n / 10) as nat)).push(
                (48 + n % 10) as u8,
            ));
        }
    }
}


/// A line with one trailing carriage return removed.
pub open spec fn clean_line(l: Seq<u8>) -> Seq<u8> {
    if l.len() > 0 && l.last() == 13 {
        l.drop_last()
    } else {
        l
    }
}

/// Removes one trailing carriage return from a line.
pub(crate) fn clean_slice(l: &[u8]) -> (r: &[u8])
    ensures
        r@ == clean_line(l@),
{
    if l.len() > 0 && l[l.len() - 1] == 13 {
        let r = vstd::slice::slice_subrange(l, 0, l.len() - 1);
        proof {
            assert(l@.subrange(0, l@.len() - 1) =~= l@.drop_last());
        }
        r
    } else {
        l
    }
}

/// The byte sequence of `"type"`.
pub open spec fn lit_type_name() -> Seq<u8> {
    seq![116u8, 121u8, 112u8, 101u8]
}

pub(crate) fn lit_type_name_arr() -> (r: [u8; 4])
    ensures
        r@ == lit_type_name(),
{
    let a: [u8; 4] = [116, 121, 112, 101];
    proof {
        assert(a@ =~= lit_type_name());
    }
    a
}

/// The byte sequence of `"client"`.
pub open spec fn lit_client_name() -> Seq<u8> {
    seq![99u8, 108u8, 105u8, 101u8, 110u8, 116u8]
}

pub(crate) fn lit_client_name_arr() -> (r: [u8; 6])
    ensures
        r@ == lit_client_name(),
{
    let a: [u8; 6] = [99, 108, 105, 101, 110, 116];
    proof {
        assert(a@ =~= lit_client_name());
    }
    a
}

/// The byte sequence of `"tx"`.
pub open spec fn lit_tx_name() -> Seq<u8> {
    seq![116u8, 120u8]
}

pub(crate) fn lit_tx_name_arr() -> (r: [u8; 2])
    ensures
        r@ == lit_tx_name(),
{
    let a: [u8; 2] = [116, 120];
    proof {
        assert(a@ =~= lit_tx_name());
    }
    a
}

/// The byte sequence of `"amount"`.
pub open spec fn lit_amount_name() -> Seq<u8> {
    seq![97u8, 109u8, 111u8, 117u8, 110u8, 116u8]
}

pub(crate) fn lit_amount_name_arr() -> (r: [u8; 6])
    ensures
        r@ == lit_amount_name(),
{
    let a: [u8; 6] = [97, 109, 111, 117, 110, 116];
    proof {
        assert(a@ =~= lit_amount_name());
    }
    a
}

/// The byte sequence of `"deposit"`.
pub open spec fn lit_deposit() -> Seq<u8> {
    seq![100u8, 101u8, 112u8, 111u8, 115u8, 105u8, 116u8]
}

pub(crate) fn lit_deposit_arr() -> (r: [u8; 7])
    ensures
        r@ == lit_deposit(),
{
    let a: [u8; 7] = [100, 101, 112, 111, 115, 105, 116];
    proof {
        assert(a@ =~= lit_deposit());
    }
    a
}

/// The byte sequence of `"withdrawal"`.
pub open spec fn lit_withdrawal() -> Seq<u8> {
    seq![119u8, 105u8, 116u8, 104u8, 100u8, 114u8, 97u8, 119u8, 97u8, 108u8]
}

pub(crate) fn lit_withdrawal_arr() -> (r: [u8; 10])
    ensures
        r@ == lit_withdrawal(),
{
    let a: [u8; 10] = [119, 105, 116, 104, 100, 114, 97, 119, 97, 108];
    proof {
        assert(a@ =~= lit_withdrawal());
    }
    a
}

/// The byte sequence of `"dispute"`.
pub open spec fn lit_dispute() -> Seq<u8> {
    seq![100u8, 105u8, 115u8, 112u8, 117u8, 116u8, 101u8]
}

pub(crate) fn lit_dispute_arr() -> (r: [u8; 7])
    ensures
        r@ == lit_dispute(),
{
    let a: [u8; 7] = [100, 105, 115, 112, 117, 116, 101];
    proof {
        assert(a@ =~= lit_dispute());
    }
    a
}

/// The byte sequence of `"resolve"`.
pub open spec fn lit_resolve() -> Seq<u8> {
    seq![114u8, 101u8, 115u8, 111u8, 108u8, 118u8, 101u8]
}

pub(crate) fn lit_resolve_arr() -> (r: [u8; 7])
    ensures
        r@ == lit_resolve(),
{
    let a: [u8; 7] = [114, 101, 115, 111, 108, 118, 101];
    proof {
        assert(a@ =~= lit_resolve());
    }
    a
}

/// The byte sequence of `"chargeback"`.
pub open spec fn lit_chargeback() -> Seq<u8> {
    seq![99u8, 104u8, 97u8, 114u8, 103u8, 101u8, 98u8, 97u8, 99u8, 107u8]
}

pub(crate) fn lit_chargeback_arr() -> (r: [u8; 10])
    ensures
        r@ == lit_chargeback(),
{
    let a: [u8; 10] = [99, 104, 97, 114, 103, 101, 98, 97, 99, 107];
    proof {
        assert(a@ =~= lit_chargeback());
    }
    a
}

/// The byte sequence of `"true"`.
pub open spec fn lit_true_word() -> Seq<u8> {
    seq![116u8, 114u8, 117u8, 101u8]
}

pub(crate) fn lit_true_word_arr() -> (r: [u8; 4])
    ensures
        r@ == lit_true_word(),
{
    let a: [u8; 4] = [116, 114, 117, 101];
    proof {
        assert(a@ =~= lit_true_word());
    }
    a
}

/// The byte sequence of `"false"`.
pub open spec fn lit_false_word() -> Seq<u8> {
    seq![102u8, 97u8, 108u8, 115u8, 101u8]
}

pub(crate) fn lit_false_word_arr() -> (r: [u8; 5])
    ensures
        r@ == lit_false_word(),
{
    let a: [u8; 5] = [102, 97, 108, 115, 101];
    proof {
        assert(a@ =~= lit_false_word());
    }
    a
}

/// The byte sequence of `"client, available, held, total, locked\n"`.
pub open spec fn lit_out_header() -> Seq<u8> {
    seq![99u8, 108u8, 105u8, 101u8, 110u8, 116u8, 44u8, 32u8, 97u8, 118u8, 97u8, 105u8, 108u8, 97u8, 98u8, 108u8, 101u8, 44u8, 32u8, 104u8, 101u8, 108u8, 100u8, 44u8, 32u8, 116u8, 111u8, 116u8, 97u8, 108u8, 44u8, 32u8, 108u8, 111u8, 99u8, 107u8, 101u8, 100u8, 10u8]
}

pub(crate) fn lit_out_header_arr() -> (r: [u8; 39])
    ensures
        r@ == lit_out_header(),
{
    let a: [u8; 39] = [99, 108, 105, 101, 110, 116, 44, 32, 97, 118, 97, 105, 108, 97, 98, 108, 101, 44, 32, 104, 101, 108, 100, 44, 32, 116, 111, 116, 97, 108, 44, 32, 108, 111, 99, 107, 101, 100, 10];
    proof {
        assert(a@ =~= lit_out_header());
    }
    a
}

/// The byte sequence of `"Error: "`.
pub open spec fn lit_error_prefix() -> Seq<u8> {
    seq![69u8, 114u8, 114u8, 111u8, 114u8, 58u8, 32u8]
}

pub(crate) fn lit_error_prefix_arr() -> (r: [u8; 7])
    ensures
        r@ == lit_error_prefix(),
{
    let a: [u8; 7] = [69, 114, 114, 111, 114, 58, 32];
    proof {
        assert(a@ =~= lit_error_prefix());
    }
    a
}

/// The byte sequence of `"Expected columns: type, client, tx, amount"`.
pub open spec fn lit_expected_columns() -> Seq<u8> {
    seq![69u8, 120u8, 112u8, 101u8, 99u8, 116u8, 101u8, 100u8, 32u8, 99u8, 111u8, 108u8, 117u8, 109u8, 110u8, 115u8, 58u8, 32u8, 116u8, 121u8, 112u8, 101u8, 44u8, 32u8, 99u8, 108u8, 105u8, 101u8, 110u8, 116u8, 44u8, 32u8, 116u8, 120u8, 44u8, 32u8, 97u8, 109u8, 111u8, 117u8, 110u8, 116u8]
}

pub(crate) fn lit_expected_columns_arr() -> (r: [u8; 42])
    ensures
        r@ == lit_expected_columns(),
{
    let a: [u8; 42] = [69, 120, 112, 101, 99, 116, 101, 100, 32, 99, 111, 108, 117, 109, 110, 115, 58, 32, 116, 121, 112, 101, 44, 32, 99, 108, 105, 101, 110, 116, 44, 32, 116, 120, 44, 32, 97, 109, 111, 117, 110, 116];
    proof {
        assert(a@ =~= lit_expected_columns());
    }
    a
}

/// The byte sequence of `"Invalid Client ID at line "`.
pub open spec fn lit_invalid_client() -> Seq<u8> {
    seq![73u8, 110u8, 118u8, 97u8, 108u8, 105u8, 100u8, 32u8, 67u8, 108u8, 105u8, 101u8, 110u8, 116u8, 32u8, 73u8, 68u8, 32u8, 97u8, 116u8, 32u8, 108u8, 105u8, 110u8, 101u8, 32u8]
}

pub(crate) fn lit_invalid_client_arr() -> (r: [u8; 26])
    ensures
        r@ == lit_invalid_client(),
{
    let a: [u8; 26] = [73, 110, 118, 97, 108, 105, 100, 32, 67, 108, 105, 101, 110, 116, 32, 73, 68, 32, 97, 116, 32, 108, 105, 110, 101, 32];
    proof {
        assert(a@ =~= lit_invalid_client());
    }
    a
}

/// The byte sequence of `"Invalid Transaction ID at line "`.
pub open spec fn lit_invalid_tx() -> Seq<u8> {
    seq![73u8, 110u8, 118u8, 97u8, 108u8, 105u8, 100u8, 32u8, 84u8, 114u8, 97u8, 110u8, 115u8, 97u8, 99u8, 116u8, 105u8, 111u8, 110u8, 32u8, 73u8, 68u8, 32u8, 97u8, 116u8, 32u8, 108u8, 105u8, 110u8, 101u8, 32u8]
}

pub(crate) fn lit_invalid_tx_arr() -> (r: [u8; 31])
    ensures
        r@ == lit_invalid_tx(),
{
    let a: [u8; 31] = [73, 110, 118, 97, 108, 105, 100, 32, 84, 114, 97, 110, 115, 97, 99, 116, 105, 111, 110, 32, 73, 68, 32, 97, 116, 32, 108, 105, 110, 101, 32];
    proof {
        assert(a@ =~= lit_invalid_tx());
    }
    a
}

/// The byte sequence of `"Invalid amount at line "`.
pub open spec fn lit_invalid_amount() -> Seq<u8> {
    seq![73u8, 110u8, 118u8, 97u8, 108u8, 105u8, 100u8, 32u8, 97u8, 109u8, 111u8, 117u8, 110u8, 116u8, 32u8, 97u8, 116u8, 32u8, 108u8, 105u8, 110u8, 101u8, 32u8]
}

pub(crate) fn lit_invalid_amount_arr() -> (r: [u8; 23])
    ensures
        r@ == lit_invalid_amount(),
{
    let a: [u8; 23] = [73, 110, 118, 97, 108, 105, 100, 32, 97, 109, 111, 117, 110, 116, 32, 97, 116, 32, 108, 105, 110, 101, 32];
    proof {
        assert(a@ =~= lit_invalid_amount());
    }
    a
}

/// The byte sequence of `"Invalid transaction type: "`.
pub open spec fn lit_invalid_type() -> Seq<u8> {
    seq![73u8, 110u8, 118u8, 97u8, 108u8, 105u8, 100u8, 32u8, 116u8, 114u8, 97u8, 110u8, 115u8, 97u8, 99u8, 116u8, 105u8, 111u8, 110u8, 32u8, 116u8, 121u8, 112u8, 101u8, 58u8, 32u8]
}

pub(crate) fn lit_invalid_type_arr() -> (r: [u8; 26])
    ensures
        r@ == lit_invalid_type(),
{
    let a: [u8; 26] = [73, 110, 118, 97, 108, 105, 100, 32, 116, 114, 97, 110, 115, 97, 99, 116, 105, 111, 110, 32, 116, 121, 112, 101, 58, 32];
    proof {
        assert(a@ =~= lit_invalid_type());
    }
    a
}

} // verus!
