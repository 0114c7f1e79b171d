//! Run-length encoder for sixel character rows. A row is scanned for maximal
//! runs of equal characters; a run of length at most three is emitted
//! literally, a longer one as the protocol's compact repeat escape
//! `!<count><char>`, with the count in decimal ASCII. Because sixel data
//! bytes lie in `[0x3F, 0x7E]` — above both `!` (`0x21`) and the digits —
//! the encoding parses back unambiguously, and this module also defines the
//! decoding and proves that it inverts the encoder exactly.

use vstd::prelude::*;

verus! {

/// The repeat-escape introducer `!`.
pub open spec fn repeat_introducer() -> u8 {
    0x21
}

/// Tells whether a byte is legal sixel data: six data bits plus the
/// printable offset `0x3F`.
pub open spec fn sixel_data(b: u8) -> bool {
    0x3F <= b <= 0x7E
}

/// Tells whether every byte of a row is legal sixel data.
pub open spec fn valid_row(s: Seq<u8>) -> bool {
    forall|i: int| 0 <= i < s.len() ==> sixel_data(#[trigger] s[i])
}

/// The decimal ASCII digits of `n`, most significant first; empty for zero.
pub open spec fn dec_digits(n: nat) -> Seq<u8>
    decreases n,
{
    if n == 0 {
        Seq::empty()
    } else {
        dec_digits(n / 10).push((0x30 + n % 10) as u8)
    }
}

/// `n` copies of `v`.
pub open spec fn repeat_byte(n: nat, v: u8) -> Seq<u8> {
    Seq::new(n, |i: int| v)
}

/// The bytes emitted for one closed run of `n` copies of `v`: nothing for an
/// empty run, the character itself up to three times, and the compact form
/// `!<n><v>` beyond that.
pub open spec fn run_encoding(n: nat, v: u8) -> Seq<u8> {
    if n == 0 {
        Seq::empty()
    } else if n <= 3 {
        repeat_byte(n, v)
    } else {
        seq![repeat_introducer()] + dec_digits(n) + seq![v]
    }
}

/// The encoding of the rest of a row, given that a run of `n` copies of `v`
/// is still open: equal characters extend the open run, a differing one
/// closes it and opens a new run.
pub open spec fn encode_from(s: Seq<u8>, n: nat, v: u8) -> Seq<u8>
    decreases s.len(),
{
    if s.len() == 0 {
        run_encoding(n, v)
    } else if s[0] == v {
        encode_from(s.skip(1), n + 1, v)
    } else {
        run_encoding(n, v) + encode_from(s.skip(1), 1, s[0])
    }
}

/// The run-length encoding of a whole row.
pub open spec fn row_encoding(s: Seq<u8>) -> Seq<u8> {
    if s.len() == 0 {
        Seq::empty()
    } else {
        encode_from(s.skip(1), 1, s[0])
    }
}

/// Tells whether a byte is a decimal ASCII digit.
pub open spec fn is_ascii_digit(b: u8) -> bool {
    0x30 <= b <= 0x39
}

/// The length of the decimal-digit prefix of `e`.
pub open spec fn digit_prefix(e: Seq<u8>) -> nat
    decreases e.len(),
{
    if e.len() > 0 && is_ascii_digit(e[0]) {
        (1 + digit_prefix(e.skip(1))) as nat
    } else {
        0
    }
}

/// The numeric value of a sequence of decimal ASCII digits.
pub open spec fn digits_val(ds: Seq<u8>) -> nat
    decreases ds.len(),
{
    if ds.len() == 0 {
        0
    } else {
        (10 * digits_val(ds.drop_last()) + (if is_ascii_digit(ds.last()) {
            (ds.last() - 0x30) as nat
        } else {
            0
        })) as nat
    }
}

/// The row a run-length encoded byte stream stands for: a repeat escape
/// contributes its character `count` times, any other byte contributes
/// itself once.
pub open spec fn row_decoding(e: Seq<u8>) -> Seq<u8>
    decreases e.len(),
{
    if e.len() == 0 {
        Seq::empty()
    } else if e[0] == repeat_introducer() {
        let k = digit_prefix(e.skip(1)) as int;
        if 1 + k < e.len() {
            repeat_byte(digits_val(e.subrange(1, 1 + k)), e[1 + k]) + row_decoding(
                e.skip(2 + k),
            )
        } else {
            Seq::empty()
        }
    } else {
        seq![e[0]] + row_decoding(e.skip(1))
    }
}

proof fn lemma_dec_digits_are_digits(n: nat)
    ensures
        forall|i: int| 0 <= i < dec_digits(n).len() ==> is_ascii_digit(#[trigger] dec_digits(n)[i]),
    decreases n,
{
    if n > 0 {
        lemma_dec_digits_are_digits(n / 10);
        let d = (0x30 + n % 10) as u8;
        assert(is_ascii_digit(d));
        assert forall|i: int| 0 <= i < dec_digits(n).len() implies is_ascii_digit(
            #[trigger] dec_digits(n)[i],
        ) by {
            if i < dec_digits(n / 10).len() {
                assert(dec_digits(n)[i] == dec_digits(n / 10)[i]);
            } else {
                assert(dec_digits(n)[i] == d);
            }
        }
    }
}

proof fn lemma_digits_val_dec_digits(n: nat)
    ensures
        digits_val(dec_digits(n)) == n,
        n >= 1 ==> dec_digits(n).len() >= 1,
    decreases n,
{
    if n > 0 {
        lemma_digits_val_dec_digits(n / 10);
        let d = (0x30 + n % 10) as u8;
        assert(dec_digits(n / 10).push(d).drop_last() =~= dec_digits(n / 10));
        assert(dec_digits(n / 10).push(d).last() == d);
    }
}

proof fn lemma_digit_prefix_exact(d: Seq<u8>, rest: Seq<u8>)
    requires
        forall|i: int| 0 <= i < d.len() ==> is_ascii_digit(#[trigger] d[i]),
        rest.len() > 0,
        !is_ascii_digit(rest[0]),
    ensures
        digit_prefix(d + rest) == d.len(),
    decreases d.len(),
{
    if d.len() == 0 {
        assert(d + rest =~= rest);
    } else {
        assert((d + rest)[0] == d[0]);
        assert((d + rest).skip(1) =~= d.skip(1) + rest);
        lemma_digit_prefix_exact(d.skip(1), rest);
    }
}

/// Bytes that are sixel data decode literally, one output byte per input
/// byte, whatever follows them.
proof fn lemma_decode_literal_prefix(p: Seq<u8>, rest: Seq<u8>)
    requires
        valid_row(p),
    ensures
        row_decoding(p + rest) == p + row_decoding(rest),
    decreases p.len(),
{
    if p.len() == 0 {
        assert(p + rest =~= rest);
        assert(p + row_decoding(rest) =~= row_decoding(rest));
    } else {
        assert((p + rest)[0] == p[0]);
        assert((p + rest).skip(1) =~= p.skip(1) + rest);
        assert(valid_row(p.skip(1)));
        lemma_decode_literal_prefix(p.skip(1), rest);
        assert(seq![p[0]] + (p.skip(1) + row_decoding(rest)) =~= p + row_decoding(rest));
    }
}

/// One closed run decodes to its `n` copies of `v`, whatever follows it.
proof fn lemma_decode_run_prefix(n: nat, v: u8, rest: Seq<u8>)
    requires
        n >= 1,
        sixel_data(v),
    ensures
        row_decoding(run_encoding(n, v) + rest) == repeat_byte(n, v) + row_decoding(rest),
{
    if n <= 3 {
        assert(valid_row(repeat_byte(n, v)));
        lemma_decode_literal_prefix(repeat_byte(n, v), rest);
    } else {
        let ds = dec_digits(n);
        lemma_dec_digits_are_digits(n);
        lemma_digits_val_dec_digits(n);
        let l = ds.len() as int;
        let e = run_encoding(n, v) + rest;
        assert(e =~= seq![repeat_introducer()] + ds + seq![v] + rest);
        assert(e[0] == repeat_introducer());
        assert(e.skip(1) =~= ds + (seq![v] + rest));
        assert(!is_ascii_digit(v));
        lemma_digit_prefix_exact(ds, seq![v] + rest);
        assert(digit_prefix(e.skip(1)) == l);
        assert(1 + l < e.len());
        assert(e.subrange(1, 1 + l) =~= ds);
        assert(e[1 + l] == v);
        assert(e.skip(2 + l) =~= rest);
    }
}

proof fn lemma_round_trip_from(s: Seq<u8>, n: nat, v: u8)
    requires
        n >= 1,
        sixel_data(v),
        valid_row(s),
    ensures
        row_decoding(encode_from(s, n, v)) == repeat_byte(n, v) + s,
    decreases s.len(),
{
    if s.len() == 0 {
        lemma_decode_run_prefix(n, v, Seq::empty());
        assert(run_encoding(n, v) + Seq::<u8>::empty() =~= run_encoding(n, v));
        assert(repeat_byte(n, v) + row_decoding(Seq::empty()) =~= repeat_byte(n, v) + s);
    } else {
        assert(valid_row(s.skip(1)));
        if s[0] == v {
            lemma_round_trip_from(s.skip(1), n + 1, v);
            assert(repeat_byte(n + 1, v) + s.skip(1) =~= repeat_byte(n, v) + s);
        } else {
            assert(sixel_data(s[0]));
            lemma_round_trip_from(s.skip(1), 1, s[0]);
            lemma_decode_run_prefix(n, v, encode_from(s.skip(1), 1, s[0]));
            assert(repeat_byte(n, v) + (repeat_byte(1, s[0]) + s.skip(1)) =~= repeat_byte(n, v)
                + s);
        }
    }
}

/// Round trip: decoding the encoder's output reconstructs the original
/// sixel character row exactly, for every row of legal sixel data — covering
/// literal runs and `!<n><v>` repeat escapes alike.
pub proof fn lemma_rle_round_trip(s: Seq<u8>)
    requires
        valid_row(s),
    ensures
        row_decoding(row_encoding(s)) == s,
{
    if s.len() == 0 {
    } else {
        assert(valid_row(s.skip(1)));
        lemma_round_trip_from(s.skip(1), 1, s[0]);
        assert(repeat_byte(1, s[0]) + s.skip(1) =~= s);
    }
}

/// The encoding is a pure function of the row: encoding equal rows — in
/// particular, the same row twice — produces byte-identical output.
pub proof fn lemma_encoding_deterministic(a: Seq<u8>, b: Seq<u8>)
    requires
        a == b,
    ensures
        row_encoding(a) == row_encoding(b),
{
}

/// Appends the decimal ASCII digits of `n` to `out`.
fn push_decimal(out: &mut Vec<u8>, n: usize)
    requires
        n >= 1,
    ensures
        final(out)@ == old(out)@ + dec_digits(n as nat),
    decreases n,
{
    if n >= 10 {
        push_decimal(out, n / 10);
    } else {
        proof {
            assert(dec_digits((n / 10) as nat) == Seq::<u8>::empty());
        }
    }
    out.push(0x30 + (n % 10) as u8);
    proof {
        assert(out@ =~= old(out)@ + dec_digits(n as nat));
    }
}

/// Appends the encoding of one closed run of `n` copies of `v` to `out`.
fn emit_run(out: &mut Vec<u8>, n: usize, v: u8)
    requires
        n >= 1,
    ensures
        final(out)@ == old(out)@ + run_encoding(n as nat, v),
{
    if n <= 3 {
        let mut i: usize = 0;
        while i < n
            invariant
                i <= n,
                out@ == old(out)@ + repeat_byte(i as nat, v),
            decreases n - i,
        {
            out.push(v);
            proof {
                assert(out@ =~= old(out)@ + repeat_byte((i + 1) as nat, v));
            }
            i += 1;
        }
    } else {
        out.push(0x21);
        push_decimal(out, n);
        out.push(v);
        proof {
            assert(out@ =~= old(out)@ + run_encoding(n as nat, v));
        }
    }
}

/// Run-length encodes one sixel character row, appending the encoded bytes
/// to `out`: exactly `row_encoding(row)`, nothing more and nothing less.
pub fn encode_row(row: &Vec<u8>, out: &mut Vec<u8>)
    ensures
        final(out)@ == old(out)@ + row_encoding(row@),
{
    let len: usize = row.len();
    if len == 0 {
        proof {
            assert(out@ =~= old(out)@ + row_encoding(row@));
        }
        return ;
    }
    let mut run_val: u8 = row[0];
    let mut run_start: usize = 0;
    let mut i: usize = 1;
    while i < len
        invariant
            1 <= i <= len,
            run_start < i,
            len == row@.len(),
            run_val == row@[run_start as int],
            old(out)@.is_prefix_of(out@),
            row_encoding(row@) == out@.skip(old(out)@.len() as int) + encode_from(
                row@.skip(i as int),
                (i - run_start) as nat,
                run_val,
            ),
        decreases len - i,
    {
        let b = row[i];
        proof {
            assert(row@.skip(i as int)[0] == row@[i as int]);
            assert(row@.skip(i as int).skip(1) =~= row@.skip(i + 1));
        }
        if b != run_val {
            let ghost prev = out@;
            emit_run(out, i - run_start, run_val);
            proof {
                assert(out@.skip(old(out)@.len() as int) =~= prev.skip(old(out)@.len() as int)
                    + run_encoding((i - run_start) as nat, run_val));
                assert(row_encoding(row@) == out@.skip(old(out)@.len() as int) + encode_from(
                    row@.skip(i + 1),
                    1,
                    b,
                ));
            }
            run_start = i;
            run_val = b;
        }
        i += 1;
    }
    proof {
        assert(row@.skip(len as int) =~= Seq::<u8>::empty());
    }
    emit_run(out, len - run_start, run_val);
    proof {
        assert(out@ =~= old(out)@ + row_encoding(row@));
    }
}

} // verus!
