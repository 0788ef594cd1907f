//! The metadata document codec. The document is a plain text format: one
//! integer per line, written as a sign byte followed by exactly twenty
//! decimal digits, zero padded. Fixed-width numerals put every value of the
//! document at a fixed offset, which keeps the format diffable line by line
//! and makes the round trip between a document and its metadata exact.

use crate::metadata::{BitmapFontAtlasMetadata, GlyphMetadata, Rational};
use std::collections::HashMap;
use vstd::arithmetic::div_mod::{
    lemma_div_by_multiple, lemma_div_denominator, lemma_div_pos_is_pos,
    lemma_fundamental_div_mod, lemma_multiply_divide_lt,
};
use vstd::prelude::*;

verus! {

broadcast use vstd::std_specs::hash::group_hash_axioms;

/// The byte of the decimal digit zero.
pub const DIGIT_ZERO: u8 = 48;

/// The sign byte of a non-negative value.
pub const SIGN_PLUS: u8 = 43;

/// The sign byte of a negative value.
pub const SIGN_MINUS: u8 = 45;

/// The byte that ends every line of the document.
pub const LINE_END: u8 = 10;

/// `10^e`.
pub open spec fn pow10(e: nat) -> int
    decreases e,
{
    if e == 0 {
        1
    } else {
        10 * pow10((e - 1) as nat)
    }
}

/// The byte of decimal digit `d`.
pub open spec fn spec_digit(d: int) -> u8 {
    (48 + d) as u8
}

/// `n` written as exactly `width` decimal digits, zero padded, most
/// significant digit first.
pub open spec fn spec_decimal(width: nat, n: int) -> Seq<u8>
    decreases width,
{
    if width == 0 {
        Seq::empty()
    } else {
        spec_decimal((width - 1) as nat, n / 10).push(spec_digit(n % 10))
    }
}

/// The value of a run of decimal digit bytes, most significant first.
pub open spec fn spec_parse_decimal(s: Seq<u8>) -> int
    decreases s.len(),
{
    if s.len() == 0 {
        0
    } else {
        spec_parse_decimal(s.drop_last()) * 10 + (s.last() - 48)
    }
}

proof fn lemma_pow10_pos(e: nat)
    ensures
        pow10(e) >= 1,
    decreases e,
{
    if e > 0 {
        lemma_pow10_pos((e - 1) as nat);
    }
}

proof fn lemma_decimal_len(width: nat, n: int)
    ensures
        spec_decimal(width, n).len() == width,
    decreases width,
{
    if width > 0 {
        lemma_decimal_len((width - 1) as nat, n / 10);
    }
}

/// The digit at position `j` of a fixed-width numeral is the digit of rank
/// `width - 1 - j` of its value.
proof fn lemma_decimal_index(width: nat, n: int, j: int)
    requires
        0 <= n,
        0 <= j < width,
    ensures
        spec_decimal(width, n).len() == width,
        spec_decimal(width, n)[j] == spec_digit((n / pow10((width - 1 - j) as nat)) % 10),
    decreases width,
{
    lemma_decimal_len(width, n);
    lemma_decimal_len((width - 1) as nat, n / 10);
    lemma_div_pos_is_pos(n, 10);
    if j == width - 1 {
        assert(pow10(0) == 1);
    } else {
        lemma_decimal_index((width - 1) as nat, n / 10, j);
        let e = (width - 2 - j) as nat;
        lemma_pow10_pos(e);
        lemma_div_denominator(n, 10, pow10(e));
        assert(10 * pow10(e) == pow10((e + 1) as nat));
    }
}

/// Parsing a fixed-width numeral recovers its value.
proof fn lemma_parse_of_decimal(width: nat, n: int)
    requires
        0 <= n < pow10(width),
    ensures
        spec_parse_decimal(spec_decimal(width, n)) == n,
    decreases width,
{
    lemma_decimal_len(width, n);
    if width == 0 {
    } else {
        lemma_decimal_len((width - 1) as nat, n / 10);
        lemma_pow10_pos((width - 1) as nat);
        lemma_multiply_divide_lt(n, 10, pow10((width - 1) as nat));
        lemma_div_pos_is_pos(n, 10);
        lemma_parse_of_decimal((width - 1) as nat, n / 10);
        let s = spec_decimal(width, n);
        assert(s.drop_last() =~= spec_decimal((width - 1) as nat, n / 10));
        lemma_fundamental_div_mod(n, 10);
    }
}

/// Printing the value of a run of digit bytes reproduces the bytes.
proof fn lemma_decimal_of_parse(s: Seq<u8>)
    requires
        forall|j: int| 0 <= j < s.len() ==> 48 <= #[trigger] s[j] <= 57,
    ensures
        0 <= spec_parse_decimal(s) < pow10(s.len() as nat),
        spec_decimal(s.len() as nat, spec_parse_decimal(s)) == s,
    decreases s.len(),
{
    if s.len() == 0 {
        assert(spec_decimal(0, spec_parse_decimal(s)) =~= s);
    } else {
        let rest = s.drop_last();
        lemma_decimal_of_parse(rest);
        let p = spec_parse_decimal(rest);
        let d = s.last() - 48;
        let n = spec_parse_decimal(s);
        assert(n == p * 10 + d);
        assert(0 <= n < pow10(s.len() as nat)) by {
            lemma_pow10_pos((s.len() - 1) as nat);
            assert(pow10(s.len() as nat) == 10 * pow10((s.len() - 1) as nat));
            assert(p * 10 + d < 10 * pow10((s.len() - 1) as nat)) by (nonlinear_arith)
                requires
                    p < pow10((s.len() - 1) as nat),
                    0 <= d < 10,
                    0 <= p,
            ;
        }
        vstd::arithmetic::div_mod::lemma_fundamental_div_mod_converse(n, 10, p, d);
        assert(spec_decimal(s.len() as nat, n) =~= s);
    }
}

/// A prefix of a fixed-width numeral is the fixed-width numeral of the
/// value with the unread digits divided away.
proof fn lemma_decimal_prefix(width: nat, n: int, k: int)
    requires
        0 <= n,
        0 <= k <= width,
    ensures
        spec_decimal(width, n).subrange(0, k) == spec_decimal(
            k as nat,
            n / pow10((width - k) as nat),
        ),
{
    lemma_decimal_len(width, n);
    lemma_decimal_len(k as nat, n / pow10((width - k) as nat));
    lemma_pow10_pos((width - k) as nat);
    lemma_div_pos_is_pos(n, pow10((width - k) as nat));
    assert forall|j: int| 0 <= j < k implies spec_decimal(width, n).subrange(0, k)[j]
        == spec_decimal(k as nat, n / pow10((width - k) as nat))[j] by {
        lemma_decimal_index(width, n, j);
        lemma_decimal_index(k as nat, n / pow10((width - k) as nat), j);
        let e = (k - 1 - j) as nat;
        lemma_pow10_pos(e);
        lemma_div_denominator(n, pow10((width - k) as nat), pow10(e));
        lemma_pow10_mul((width - k) as nat, e);
    }
    assert(spec_decimal(width, n).subrange(0, k) =~= spec_decimal(
        k as nat,
        n / pow10((width - k) as nat),
    ));
}

/// `10^a * 10^b == 10^(a + b)`.
proof fn lemma_pow10_mul(a: nat, b: nat)
    ensures
        pow10(a) * pow10(b) == pow10(a + b),
    decreases a,
{
    if a == 0 {
    } else {
        lemma_pow10_mul((a - 1) as nat, b);
        assert(pow10(a) * pow10(b) == 10 * (pow10((a - 1) as nat) * pow10(b)))
            by (nonlinear_arith)
            requires
                pow10(a) == 10 * pow10((a - 1) as nat),
        ;
    }
}

/// The powers of ten around the fixed digit count, as literals.
proof fn lemma_pow10_constants()
    ensures
        pow10(19) == 10_000_000_000_000_000_000,
        pow10(20) == 100_000_000_000_000_000_000,
{
    reveal_with_fuel(pow10, 21);
}

/// `|v|`.
pub open spec fn spec_abs(v: int) -> int {
    if v >= 0 {
        v
    } else {
        -v
    }
}

/// One line of the document: the sign of `v`, then its magnitude as exactly
/// twenty decimal digits, then a line end. Every line is 22 bytes.
pub open spec fn spec_line(v: int) -> Seq<u8> {
    (if v >= 0 {
        seq![SIGN_PLUS]
    } else {
        seq![SIGN_MINUS]
    }) + spec_decimal(20, spec_abs(v)) + seq![LINE_END]
}

/// The shape of one line: its length, its sign byte, its terminator, and
/// the digit run in the middle.
proof fn lemma_line_parts(v: int)
    requires
        -pow10(20) < v < pow10(20),
    ensures
        spec_line(v).len() == 22,
        spec_line(v)[0] == if v >= 0 {
            SIGN_PLUS
        } else {
            SIGN_MINUS
        },
        spec_line(v)[21] == LINE_END,
        spec_line(v).subrange(1, 21) == spec_decimal(20, spec_abs(v)),
{
    lemma_decimal_len(20, spec_abs(v));
    assert(spec_line(v).subrange(1, 21) =~= spec_decimal(20, spec_abs(v)));
}

/// No two values share a line: the document determines the metadata.
proof fn lemma_line_injective(a: int, b: int)
    requires
        -pow10(20) < a < pow10(20),
        -pow10(20) < b < pow10(20),
        spec_line(a) == spec_line(b),
    ensures
        a == b,
{
    lemma_line_parts(a);
    lemma_line_parts(b);
    assert(spec_decimal(20, spec_abs(a)) == spec_decimal(20, spec_abs(b)));
    lemma_parse_of_decimal(20, spec_abs(a));
    lemma_parse_of_decimal(20, spec_abs(b));
}

/// Append the fixed-width decimal digits of `value`.
fn push_decimal20(out: &mut Vec<u8>, value: u64)
    ensures
        final(out)@ == old(out)@ + spec_decimal(20, value as int),
{
    let ghost start = out@;
    proof {
        lemma_pow10_constants();
    }
    let mut divisor: u64 = 10_000_000_000_000_000_000;
    let mut k: usize = 0;
    while k < 20
        invariant
            k <= 20,
            k < 20 ==> divisor as int == pow10((19 - k) as nat),
            out@ == start + spec_decimal(20, value as int).subrange(0, k as int),
        decreases 20 - k,
    {
        proof {
            lemma_pow10_pos((19 - k) as nat);
            lemma_decimal_len(20, value as int);
            lemma_decimal_index(20, value as int, k as int);
        }
        let d = ((value / divisor) % 10) as u8;
        out.push(DIGIT_ZERO + d);
        proof {
            assert(out@ =~= start + spec_decimal(20, value as int).subrange(0, k as int + 1));
        }
        if k < 19 {
            proof {
                lemma_pow10_pos((18 - k) as nat);
                lemma_div_by_multiple(pow10((18 - k) as nat), 10);
                assert(pow10((19 - k) as nat) == pow10((18 - k) as nat) * 10);
            }
            divisor = divisor / 10;
        }
        k = k + 1;
    }
    proof {
        lemma_decimal_len(20, value as int);
        assert(spec_decimal(20, value as int).subrange(0, 20) =~= spec_decimal(
            20,
            value as int,
        ));
    }
}

/// Append one line holding a non-negative value.
fn push_line_u64(out: &mut Vec<u8>, value: u64)
    ensures
        final(out)@ == old(out)@ + spec_line(value as int),
{
    proof {
        lemma_pow10_constants();
    }
    out.push(SIGN_PLUS);
    push_decimal20(out, value);
    out.push(LINE_END);
    proof {
        assert(out@ =~= old(out)@ + spec_line(value as int));
    }
}

/// Append one line holding a signed value.
fn push_line_i64(out: &mut Vec<u8>, value: i64)
    ensures
        final(out)@ == old(out)@ + spec_line(value as int),
{
    proof {
        lemma_pow10_constants();
    }
    if value >= 0 {
        out.push(SIGN_PLUS);
        push_decimal20(out, value as u64);
    } else {
        out.push(SIGN_MINUS);
        let magnitude: u64 = ((-(value + 1)) as u64) + 1;
        assert(magnitude as int == spec_abs(value as int));
        push_decimal20(out, magnitude);
    }
    out.push(LINE_END);
    proof {
        assert(out@ =~= old(out)@ + spec_line(value as int));
    }
}

/// Read a run of exactly twenty digit bytes. On success the run is the
/// fixed-width numeral of the returned value; any run that is the numeral
/// of some value is accepted and yields exactly that value.
#[verifier::loop_isolation(false)]
fn parse_decimal20(bytes: &Vec<u8>, pos: usize) -> (r: Option<u64>)
    requires
        pos + 20 <= bytes@.len(),
    ensures
        r matches Some(v) ==> bytes@.subrange(pos as int, pos as int + 20) == spec_decimal(
            20,
            v as int,
        ),
        forall|v: u64|
            bytes@.subrange(pos as int, pos as int + 20) == spec_decimal(20, v as int) ==> r
                == Some(v),
{
    let ghost frag = bytes@.subrange(pos as int, pos as int + 20);
    let byte_count = bytes.len();
    proof {
        lemma_pow10_constants();
        assert(byte_count == bytes@.len());
    }
    let mut acc: u64 = 0;
    let mut k: usize = 0;
    while k < 20
        invariant
            k <= 20,
            pos + 20 <= bytes@.len(),
            frag == bytes@.subrange(pos as int, pos as int + 20),
            forall|j: int| 0 <= j < k ==> 48 <= #[trigger] frag[j] <= 57,
            acc as int == spec_parse_decimal(frag.subrange(0, k as int)),
        decreases 20 - k,
    {
        let b = bytes[pos + k];
        proof {
            assert(b == frag[k as int]);
        }
        if b < 48 || b > 57 {
            proof {
                assert forall|v: u64|
                    frag != spec_decimal(20, v as int) by {
                    lemma_decimal_index(20, v as int, k as int);
                    if frag == spec_decimal(20, v as int) {
                        assert(48 <= frag[k as int] <= 57);
                    }
                }
            }
            return None;
        }
        let d = (b - 48) as u64;
        if acc > (u64::MAX - d) / 10 {
            proof {
                assert forall|v: u64|
                    frag != spec_decimal(20, v as int) by {
                    if frag == spec_decimal(20, v as int) {
                        lemma_overflow_check_passes(v, frag, k as int, acc as int, d as int);
                    }
                }
            }
            return None;
        }
        proof {
            lemma_fundamental_div_mod(u64::MAX - d, 10);
            assert(frag.subrange(0, k as int + 1).drop_last() =~= frag.subrange(0, k as int));
            assert(frag.subrange(0, k as int + 1).last() == frag[k as int]);
        }
        acc = acc * 10 + d;
        k = k + 1;
    }
    proof {
        assert(frag.subrange(0, 20) =~= frag);
        lemma_decimal_of_parse(frag);
        assert forall|v: u64|
            frag == spec_decimal(20, v as int) implies acc == v by {
            lemma_parse_of_decimal(20, v as int);
        }
    }
    Some(acc)
}

/// Under the hypothesis that the digit run prints `v`, the accumulated
/// prefix value can always take one more digit without leaving `u64`, so
/// the parser's overflow guard never fires on a well-formed numeral.
proof fn lemma_overflow_check_passes(v: u64, frag: Seq<u8>, k: int, acc: int, d: int)
    requires
        0 <= k < 20,
        frag == spec_decimal(20, v as int),
        acc == spec_parse_decimal(frag.subrange(0, k)),
        d == frag[k] - 48,
        0 <= d < 10,
    ensures
        acc <= ((u64::MAX - d) as int) / 10,
{
    lemma_pow10_constants();
    lemma_decimal_len(20, v as int);
    lemma_decimal_prefix(20, v as int, k);
    lemma_decimal_prefix(20, v as int, k + 1);
    let hi = (v as int) / pow10((20 - k) as nat);
    let hi2 = (v as int) / pow10((19 - k) as nat);
    lemma_pow10_pos((20 - k) as nat);
    lemma_pow10_pos((19 - k) as nat);
    lemma_pow10_mul((20 - k) as nat, k as nat);
    lemma_multiply_divide_lt(v as int, pow10((20 - k) as nat), pow10(k as nat));
    lemma_parse_of_decimal(k as nat, hi);
    assert(acc == hi);
    lemma_decimal_index(20, v as int, k);
    assert(d == (hi2 % 10));
    lemma_div_denominator(v as int, pow10((19 - k) as nat), 10);
    assert(pow10((19 - k) as nat) * 10 == pow10((20 - k) as nat)) by {
        lemma_pow10_mul((19 - k) as nat, 1);
        assert(pow10(1) == 10 * pow10(0));
        assert(pow10(0) == 1);
    }
    assert(hi2 / 10 == hi);
    lemma_fundamental_div_mod(hi2, 10);
    assert(hi2 == 10 * hi + d);
    vstd::arithmetic::div_mod::lemma_div_nonincreasing(v as int, pow10((19 - k) as nat));
    lemma_div_pos_is_pos(v as int, pow10((19 - k) as nat));
    assert(hi2 <= v as int);
    assert(10 * acc <= (u64::MAX - d) as int);
    vstd::arithmetic::div_mod::lemma_div_is_ordered(
        10 * acc,
        (u64::MAX - d) as int,
        10,
    );
    lemma_div_by_multiple(acc, 10);
}

/// Read one line holding a non-negative value.
fn parse_u64_line(bytes: &Vec<u8>, pos: usize) -> (r: Option<u64>)
    requires
        pos + 22 <= bytes@.len(),
    ensures
        r matches Some(v) ==> bytes@.subrange(pos as int, pos as int + 22) == spec_line(v as int),
        forall|v: u64|
            bytes@.subrange(pos as int, pos as int + 22) == spec_line(v as int) ==> r == Some(v),
{
    let ghost frag = bytes@.subrange(pos as int, pos as int + 22);
    let byte_count = bytes.len();
    proof {
        lemma_pow10_constants();
        assert(byte_count == bytes@.len());
        assert forall|v: u64| frag == spec_line(v as int) implies frag[0] == SIGN_PLUS && frag[21]
            == LINE_END && frag.subrange(1, 21) == spec_decimal(20, v as int) by {
            lemma_line_parts(v as int);
        }
        assert(bytes@.subrange(pos as int + 1, pos as int + 21) =~= frag.subrange(1, 21));
    }
    if bytes[pos] != SIGN_PLUS {
        return None;
    }
    match parse_decimal20(bytes, pos + 1) {
        None => None,
        Some(v) => {
            if bytes[pos + 21] != LINE_END {
                return None;
            }
            proof {
                lemma_line_parts(v as int);
                assert(frag[0] == SIGN_PLUS);
                assert(frag[21] == LINE_END);
                assert(frag =~= spec_line(v as int));
            }
            Some(v)
        },
    }
}

/// Read one line holding a signed value.
fn parse_i64_line(bytes: &Vec<u8>, pos: usize) -> (r: Option<i64>)
    requires
        pos + 22 <= bytes@.len(),
    ensures
        r matches Some(v) ==> bytes@.subrange(pos as int, pos as int + 22) == spec_line(v as int),
        forall|v: i64|
            bytes@.subrange(pos as int, pos as int + 22) == spec_line(v as int) ==> r == Some(v),
{
    let ghost frag = bytes@.subrange(pos as int, pos as int + 22);
    let byte_count = bytes.len();
    proof {
        lemma_pow10_constants();
        assert(byte_count == bytes@.len());
        assert forall|v: i64| frag == spec_line(v as int) implies frag[0] == (if v >= 0 {
            SIGN_PLUS
        } else {
            SIGN_MINUS
        }) && frag[21] == LINE_END && frag.subrange(1, 21) == spec_decimal(
            20,
            spec_abs(v as int),
        ) by {
            lemma_line_parts(v as int);
        }
        assert(bytes@.subrange(pos as int + 1, pos as int + 21) =~= frag.subrange(1, 21));
    }
    let sign = bytes[pos];
    if sign != SIGN_PLUS && sign != SIGN_MINUS {
        return None;
    }
    let magnitude = match parse_decimal20(bytes, pos + 1) {
        None => {
            return None;
        },
        Some(m) => m,
    };
    if bytes[pos + 21] != LINE_END {
        return None;
    }
    if sign == SIGN_PLUS {
        if magnitude > 0x7FFF_FFFF_FFFF_FFFF {
            return None;
        }
        let value = magnitude as i64;
        proof {
            lemma_line_parts(value as int);
            assert(frag =~= spec_line(value as int));
        }
        Some(value)
    } else {
        if magnitude == 0 || magnitude > 0x8000_0000_0000_0000 {
            return None;
        }
        let value = (-((magnitude - 1) as i64)) - 1;
        proof {
            assert(spec_abs(value as int) == magnitude as int);
            lemma_line_parts(value as int);
            assert(frag =~= spec_line(value as int));
        }
        Some(value)
    }
}

/// The document bytes of one rational: its numerator line, then its
/// denominator line.
pub open spec fn spec_encode_rational(r: Rational) -> Seq<u8> {
    spec_line(r.numer as int) + spec_line(r.denom as int)
}

/// The document bytes of one glyph entry: its code point line, then the two
/// lines of each of its five placement fields.
pub open spec fn spec_encode_glyph(g: GlyphMetadata) -> Seq<u8> {
    spec_line(g.code_point as int) + spec_encode_rational(g.x_min) + spec_encode_rational(g.width)
        + spec_encode_rational(g.height) + spec_encode_rational(g.y_min) + spec_encode_rational(
        g.y_offset,
    )
}

/// The document bytes of the glyph entries for all code points in
/// `[32, upto)`, in code point order.
pub open spec fn spec_encode_records(m: Map<usize, GlyphMetadata>, upto: int) -> Seq<u8>
    decreases upto,
{
    if upto <= 32 {
        Seq::empty()
    } else {
        spec_encode_records(m, upto - 1) + spec_encode_glyph(m[(upto - 1) as usize])
    }
}

/// The six configuration lines that open the document.
pub open spec fn spec_encode_header(meta: BitmapFontAtlasMetadata) -> Seq<u8> {
    spec_line(meta.dimensions as int) + spec_line(meta.columns as int) + spec_line(
        meta.rows as int,
    ) + spec_line(meta.padding as int) + spec_line(meta.slot_glyph_size as int) + spec_line(
        meta.glyph_size as int,
    )
}

/// The whole metadata document: the configuration header followed by one
/// record per supported code point.
pub open spec fn spec_encode_metadata(meta: BitmapFontAtlasMetadata) -> Seq<u8> {
    spec_encode_header(meta) + spec_encode_records(meta.glyph_metadata@, 256)
}

/// The length in bytes of one encoded glyph entry: eleven lines of 22 bytes.
pub const GLYPH_RECORD_BYTES: usize = 242;

/// The length in bytes of the configuration header.
pub const HEADER_BYTES: usize = 132;

/// The length in bytes of the whole document: the header and 224 records.
pub const DOCUMENT_BYTES: usize = 132 + 224 * 242;

proof fn lemma_line_len(v: int)
    ensures
        spec_line(v).len() == 22,
{
    lemma_decimal_len(20, spec_abs(v));
}

/// The shape of one encoded rational: its length and its two lines.
proof fn lemma_rational_parts(r: Rational)
    ensures
        spec_encode_rational(r).len() == 44,
        spec_encode_rational(r).subrange(0, 22) == spec_line(r.numer as int),
        spec_encode_rational(r).subrange(22, 44) == spec_line(r.denom as int),
{
    lemma_line_len(r.numer as int);
    lemma_line_len(r.denom as int);
    assert(spec_encode_rational(r).subrange(0, 22) =~= spec_line(r.numer as int));
    assert(spec_encode_rational(r).subrange(22, 44) =~= spec_line(r.denom as int));
}

/// The shape of one encoded glyph entry: its length, its code point line,
/// and the slice of each placement field.
proof fn lemma_glyph_parts(g: GlyphMetadata)
    ensures
        spec_encode_glyph(g).len() == 242,
        spec_encode_glyph(g).subrange(0, 22) == spec_line(g.code_point as int),
        spec_encode_glyph(g).subrange(22, 66) == spec_encode_rational(g.x_min),
        spec_encode_glyph(g).subrange(66, 110) == spec_encode_rational(g.width),
        spec_encode_glyph(g).subrange(110, 154) == spec_encode_rational(g.height),
        spec_encode_glyph(g).subrange(154, 198) == spec_encode_rational(g.y_min),
        spec_encode_glyph(g).subrange(198, 242) == spec_encode_rational(g.y_offset),
{
    lemma_line_len(g.code_point as int);
    lemma_rational_parts(g.x_min);
    lemma_rational_parts(g.width);
    lemma_rational_parts(g.height);
    lemma_rational_parts(g.y_min);
    lemma_rational_parts(g.y_offset);
    assert(spec_encode_glyph(g).subrange(0, 22) =~= spec_line(g.code_point as int));
    assert(spec_encode_glyph(g).subrange(22, 66) =~= spec_encode_rational(g.x_min));
    assert(spec_encode_glyph(g).subrange(66, 110) =~= spec_encode_rational(g.width));
    assert(spec_encode_glyph(g).subrange(110, 154) =~= spec_encode_rational(g.height));
    assert(spec_encode_glyph(g).subrange(154, 198) =~= spec_encode_rational(g.y_min));
    assert(spec_encode_glyph(g).subrange(198, 242) =~= spec_encode_rational(g.y_offset));
}

proof fn lemma_records_len(m: Map<usize, GlyphMetadata>, upto: int)
    requires
        32 <= upto <= 256,
    ensures
        spec_encode_records(m, upto).len() == (upto - 32) * 242,
    decreases upto,
{
    if upto > 32 {
        lemma_records_len(m, upto - 1);
        lemma_glyph_parts(m[(upto - 1) as usize]);
    }
}

/// The slice of the record run that belongs to code point `k`.
proof fn lemma_records_slice(m: Map<usize, GlyphMetadata>, upto: int, k: int)
    requires
        32 <= upto <= 256,
        32 <= k < upto,
    ensures
        spec_encode_records(m, upto).subrange((k - 32) * 242, (k - 31) * 242)
            == spec_encode_glyph(m[k as usize]),
    decreases upto,
{
    lemma_records_len(m, upto);
    lemma_records_len(m, upto - 1);
    lemma_glyph_parts(m[(upto - 1) as usize]);
    if k == upto - 1 {
        assert(spec_encode_records(m, upto).subrange((k - 32) * 242, (k - 31) * 242)
            =~= spec_encode_glyph(m[k as usize]));
    } else {
        lemma_records_slice(m, upto - 1, k);
        assert(spec_encode_records(m, upto).subrange((k - 32) * 242, (k - 31) * 242)
            =~= spec_encode_records(m, upto - 1).subrange((k - 32) * 242, (k - 31) * 242));
    }
}

/// A record run is determined by its slices: bytes that carry the encoding
/// of every entry in order are the encoding of the whole run.
proof fn lemma_records_from_slices(m: Map<usize, GlyphMetadata>, s: Seq<u8>, upto: int)
    requires
        32 <= upto <= 256,
        s.len() == (upto - 32) * 242,
        forall|c: int|
            32 <= c < upto ==> s.subrange((c - 32) * 242, (c - 31) * 242)
                == spec_encode_glyph(#[trigger] m[c as usize]),
    ensures
        spec_encode_records(m, upto) == s,
    decreases upto,
{
    if upto == 32 {
        assert(spec_encode_records(m, upto) =~= s);
    } else {
        let prefix = s.subrange(0, (upto - 33) * 242);
        assert forall|c: int|
            32 <= c < upto - 1 implies prefix.subrange((c - 32) * 242, (c - 31) * 242)
            == spec_encode_glyph(#[trigger] m[c as usize]) by {
            assert(prefix.subrange((c - 32) * 242, (c - 31) * 242) =~= s.subrange(
                (c - 32) * 242,
                (c - 31) * 242,
            ));
        }
        lemma_records_from_slices(m, prefix, upto - 1);
        lemma_glyph_parts(m[(upto - 1) as usize]);
        assert(s.subrange((upto - 33) * 242, (upto - 32) * 242) == spec_encode_glyph(
            m[(upto - 1) as usize],
        ));
        assert(spec_encode_records(m, upto) =~= s);
    }
}

/// The shape of a whole document: its fixed length, the slice of every
/// header line, and the slice of the record run.
proof fn lemma_document_parts(meta: BitmapFontAtlasMetadata)
    ensures
        spec_encode_metadata(meta).len() == DOCUMENT_BYTES,
        spec_encode_metadata(meta).subrange(0, 22) == spec_line(meta.dimensions as int),
        spec_encode_metadata(meta).subrange(22, 44) == spec_line(meta.columns as int),
        spec_encode_metadata(meta).subrange(44, 66) == spec_line(meta.rows as int),
        spec_encode_metadata(meta).subrange(66, 88) == spec_line(meta.padding as int),
        spec_encode_metadata(meta).subrange(88, 110) == spec_line(meta.slot_glyph_size as int),
        spec_encode_metadata(meta).subrange(110, 132) == spec_line(meta.glyph_size as int),
        spec_encode_metadata(meta).subrange(132, DOCUMENT_BYTES as int) == spec_encode_records(
            meta.glyph_metadata@,
            256,
        ),
{
    lemma_line_len(meta.dimensions as int);
    lemma_line_len(meta.columns as int);
    lemma_line_len(meta.rows as int);
    lemma_line_len(meta.padding as int);
    lemma_line_len(meta.slot_glyph_size as int);
    lemma_line_len(meta.glyph_size as int);
    lemma_records_len(meta.glyph_metadata@, 256);
    assert(spec_encode_metadata(meta).subrange(0, 22) =~= spec_line(meta.dimensions as int));
    assert(spec_encode_metadata(meta).subrange(22, 44) =~= spec_line(meta.columns as int));
    assert(spec_encode_metadata(meta).subrange(44, 66) =~= spec_line(meta.rows as int));
    assert(spec_encode_metadata(meta).subrange(66, 88) =~= spec_line(meta.padding as int));
    assert(spec_encode_metadata(meta).subrange(88, 110) =~= spec_line(
        meta.slot_glyph_size as int,
    ));
    assert(spec_encode_metadata(meta).subrange(110, 132) =~= spec_line(meta.glyph_size as int));
    assert(spec_encode_metadata(meta).subrange(132, DOCUMENT_BYTES as int)
        =~= spec_encode_records(meta.glyph_metadata@, 256));
}

/// Append the two lines of one rational.
fn push_rational(out: &mut Vec<u8>, r: Rational)
    ensures
        final(out)@ == old(out)@ + spec_encode_rational(r),
{
    push_line_i64(out, r.numer);
    push_line_u64(out, r.denom as u64);
    proof {
        assert(out@ =~= old(out)@ + spec_encode_rational(r));
    }
}

/// Append the eleven lines of one glyph entry.
fn push_glyph(out: &mut Vec<u8>, g: &GlyphMetadata)
    ensures
        final(out)@ == old(out)@ + spec_encode_glyph(*g),
{
    push_line_u64(out, g.code_point as u64);
    push_rational(out, g.x_min);
    push_rational(out, g.width);
    push_rational(out, g.height);
    push_rational(out, g.y_min);
    push_rational(out, g.y_offset);
    proof {
        assert(out@ =~= old(out)@ + spec_encode_glyph(*g));
    }
}

/// Serialize a metadata document to its on-disk bytes. The result is pinned
/// to the document encoding, so writing the same metadata twice produces
/// byte-identical output.
pub fn encode_metadata(meta: &BitmapFontAtlasMetadata) -> (out: Vec<u8>)
    requires
        meta.wf(),
    ensures
        out@ == spec_encode_metadata(*meta),
        out@.len() == DOCUMENT_BYTES,
{
    let mut out: Vec<u8> = Vec::new();
    push_line_u64(&mut out, meta.dimensions as u64);
    push_line_u64(&mut out, meta.columns as u64);
    push_line_u64(&mut out, meta.rows as u64);
    push_line_u64(&mut out, meta.padding as u64);
    push_line_u64(&mut out, meta.slot_glyph_size as u64);
    push_line_u64(&mut out, meta.glyph_size as u64);
    proof {
        assert(out@ =~= spec_encode_header(*meta));
    }
    let mut cp: usize = 32;
    #[verifier::loop_isolation(false)]
    while cp < 256
        invariant
            32 <= cp <= 256,
            out@ == spec_encode_header(*meta) + spec_encode_records(
                meta.glyph_metadata@,
                cp as int,
            ),
        decreases 256 - cp,
    {
        let entry = match meta.glyph_metadata.get(&cp) {
            Some(entry) => entry,
            None => {
                return vstd::pervasive::unreached();
            },
        };
        push_glyph(&mut out, entry);
        proof {
            assert(out@ =~= spec_encode_header(*meta) + spec_encode_records(
                meta.glyph_metadata@,
                cp as int + 1,
            ));
        }
        cp = cp + 1;
    }
    proof {
        lemma_document_parts(*meta);
    }
    out
}

/// A failure while loading a persisted atlas.
#[derive(Clone, Debug)]
pub enum Error {
    FileNotFound(String),
    CouldNotParseFontFile(String),
    Float32NotByteVector(String),
}

/// Read the two lines of one rational.
fn parse_rational(bytes: &Vec<u8>, pos: usize) -> (r: Option<Rational>)
    requires
        pos + 44 <= bytes@.len(),
    ensures
        r matches Some(q) ==> bytes@.subrange(pos as int, pos as int + 44) == spec_encode_rational(
            q,
        ),
        forall|q: Rational|
            bytes@.subrange(pos as int, pos as int + 44) == spec_encode_rational(q) ==> r == Some(
                q,
            ),
{
    let ghost frag = bytes@.subrange(pos as int, pos as int + 44);
    let byte_count = bytes.len();
    proof {
        assert(byte_count == bytes@.len());
        assert forall|q: Rational| frag == spec_encode_rational(q) implies bytes@.subrange(
            pos as int,
            pos as int + 22,
        ) == spec_line(q.numer as int) && bytes@.subrange(pos as int + 22, pos as int + 44)
            == spec_line(q.denom as int) by {
            lemma_rational_parts(q);
            assert(bytes@.subrange(pos as int, pos as int + 22) =~= frag.subrange(0, 22));
            assert(bytes@.subrange(pos as int + 22, pos as int + 44) =~= frag.subrange(22, 44));
        }
    }
    let numer = match parse_i64_line(bytes, pos) {
        Some(v) => v,
        None => {
            return None;
        },
    };
    let denom = match parse_usize_line(bytes, pos + 22) {
        Some(v) => v,
        None => {
            return None;
        },
    };
    let parsed = Rational { numer, denom };
    proof {
        lemma_line_len(numer as int);
        lemma_line_len(denom as int);
        assert(frag.subrange(0, 22) =~= bytes@.subrange(pos as int, pos as int + 22));
        assert(frag.subrange(22, 44) =~= bytes@.subrange(pos as int + 22, pos as int + 44));
        assert(frag =~= spec_encode_rational(parsed));
    }
    Some(parsed)
}

/// Read the eleven lines of one glyph entry.
#[verifier::rlimit(60)]
fn parse_glyph(bytes: &Vec<u8>, pos: usize) -> (r: Option<GlyphMetadata>)
    requires
        pos + 242 <= bytes@.len(),
    ensures
        r matches Some(g) ==> bytes@.subrange(pos as int, pos as int + 242) == spec_encode_glyph(
            g,
        ),
        forall|g: GlyphMetadata|
            bytes@.subrange(pos as int, pos as int + 242) == spec_encode_glyph(g) ==> r == Some(g),
{
    let ghost frag = bytes@.subrange(pos as int, pos as int + 242);
    let byte_count = bytes.len();
    proof {
        assert(byte_count == bytes@.len());
        assert forall|g: GlyphMetadata| frag == spec_encode_glyph(g) implies bytes@.subrange(
            pos as int,
            pos as int + 22,
        ) == spec_line(g.code_point as int) && bytes@.subrange(pos as int + 22, pos as int + 66)
            == spec_encode_rational(g.x_min) && bytes@.subrange(pos as int + 66, pos as int + 110)
            == spec_encode_rational(g.width) && bytes@.subrange(pos as int + 110, pos as int + 154)
            == spec_encode_rational(g.height) && bytes@.subrange(
            pos as int + 154,
            pos as int + 198,
        ) == spec_encode_rational(g.y_min) && bytes@.subrange(pos as int + 198, pos as int + 242)
            == spec_encode_rational(g.y_offset) by {
            lemma_glyph_parts(g);
            assert(bytes@.subrange(pos as int, pos as int + 22) =~= frag.subrange(0, 22));
            assert(bytes@.subrange(pos as int + 22, pos as int + 66) =~= frag.subrange(22, 66));
            assert(bytes@.subrange(pos as int + 66, pos as int + 110) =~= frag.subrange(66, 110));
            assert(bytes@.subrange(pos as int + 110, pos as int + 154) =~= frag.subrange(
                110,
                154,
            ));
            assert(bytes@.subrange(pos as int + 154, pos as int + 198) =~= frag.subrange(
                154,
                198,
            ));
            assert(bytes@.subrange(pos as int + 198, pos as int + 242) =~= frag.subrange(
                198,
                242,
            ));
        }
    }
    let code_point = match parse_usize_line(bytes, pos) {
        Some(v) => v,
        None => {
            return None;
        },
    };
    let x_min = match parse_rational(bytes, pos + 22) {
        Some(v) => v,
        None => {
            return None;
        },
    };
    let width = match parse_rational(bytes, pos + 66) {
        Some(v) => v,
        None => {
            return None;
        },
    };
    let height = match parse_rational(bytes, pos + 110) {
        Some(v) => v,
        None => {
            return None;
        },
    };
    let y_min = match parse_rational(bytes, pos + 154) {
        Some(v) => v,
        None => {
            return None;
        },
    };
    let y_offset = match parse_rational(bytes, pos + 198) {
        Some(v) => v,
        None => {
            return None;
        },
    };
    let parsed = GlyphMetadata { code_point, x_min, width, height, y_min, y_offset };
    proof {
        lemma_glyph_parts(parsed);
        assert(frag.subrange(0, 22) =~= bytes@.subrange(pos as int, pos as int + 22));
        assert(frag.subrange(22, 66) =~= bytes@.subrange(pos as int + 22, pos as int + 66));
        assert(frag.subrange(66, 110) =~= bytes@.subrange(pos as int + 66, pos as int + 110));
        assert(frag.subrange(110, 154) =~= bytes@.subrange(pos as int + 110, pos as int + 154));
        assert(frag.subrange(154, 198) =~= bytes@.subrange(pos as int + 154, pos as int + 198));
        assert(frag.subrange(198, 242) =~= bytes@.subrange(pos as int + 198, pos as int + 242));
        assert forall|i: int| 0 <= i < 242 implies frag[i] == spec_encode_glyph(parsed)[i] by {
            if i < 22 {
                assert(frag[i] == frag.subrange(0, 22)[i]);
                assert(spec_encode_glyph(parsed)[i] == spec_encode_glyph(parsed).subrange(0, 22)[i]);
            } else if i < 66 {
                assert(frag[i] == frag.subrange(22, 66)[i - 22]);
                assert(spec_encode_glyph(parsed)[i] == spec_encode_glyph(parsed).subrange(22, 66)[i - 22]);
            } else if i < 110 {
                assert(frag[i] == frag.subrange(66, 110)[i - 66]);
                assert(spec_encode_glyph(parsed)[i] == spec_encode_glyph(parsed).subrange(66, 110)[i - 66]);
            } else if i < 154 {
                assert(frag[i] == frag.subrange(110, 154)[i - 110]);
                assert(spec_encode_glyph(parsed)[i] == spec_encode_glyph(parsed).subrange(110, 154)[i - 110]);
            } else if i < 198 {
                assert(frag[i] == frag.subrange(154, 198)[i - 154]);
                assert(spec_encode_glyph(parsed)[i] == spec_encode_glyph(parsed).subrange(154, 198)[i - 154]);
            } else {
                assert(frag[i] == frag.subrange(198, 242)[i - 198]);
                assert(spec_encode_glyph(parsed)[i] == spec_encode_glyph(parsed).subrange(198, 242)[i - 198]);
            }
        }
        assert(frag =~= spec_encode_glyph(parsed));
    }
    Some(parsed)
}

/// Read one line holding a value that must fit in `usize`.
fn parse_usize_line(bytes: &Vec<u8>, pos: usize) -> (r: Option<usize>)
    requires
        pos + 22 <= bytes@.len(),
    ensures
        r matches Some(v) ==> bytes@.subrange(pos as int, pos as int + 22) == spec_line(v as int),
        forall|v: usize|
            bytes@.subrange(pos as int, pos as int + 22) == spec_line(v as int) ==> r == Some(v),
{
    match parse_u64_line(bytes, pos) {
        None => None,
        Some(v) => {
            if v > (usize::MAX as u64) {
                return None;
            }
            Some(v as usize)
        },
    }
}

/// Deserialize a metadata document. A document produced by
/// [`encode_metadata`] from any well-formed metadata is always accepted, and
/// what it yields encodes back to the very same bytes; everything else is
/// rejected as malformed, with the offending path in the error.
#[verifier::rlimit(60)]
#[verifier::loop_isolation(false)]
pub fn decode_metadata(bytes: &Vec<u8>, path: String) -> (result: Result<
    BitmapFontAtlasMetadata,
    Error,
>)
    ensures
        result matches Ok(meta) ==> meta.wf() && bytes@ == spec_encode_metadata(meta),
        (exists|meta: BitmapFontAtlasMetadata|
            meta.wf() && #[trigger] spec_encode_metadata(meta) == bytes@) ==> result is Ok,
        result matches Err(e) ==> e == Error::CouldNotParseFontFile(path),
{
    let ghost whole = bytes@;
    proof {
        assert forall|meta: BitmapFontAtlasMetadata|
            meta.wf() && spec_encode_metadata(meta) == whole implies whole.len() == DOCUMENT_BYTES
            && whole.subrange(0, 22) == spec_line(meta.dimensions as int) && whole.subrange(22, 44)
            == spec_line(meta.columns as int) && whole.subrange(44, 66) == spec_line(
            meta.rows as int,
        ) && whole.subrange(66, 88) == spec_line(meta.padding as int) && whole.subrange(88, 110)
            == spec_line(meta.slot_glyph_size as int) && whole.subrange(110, 132) == spec_line(
            meta.glyph_size as int,
        ) by {
            lemma_document_parts(meta);
        }
    }
    if bytes.len() != DOCUMENT_BYTES {
        return Err(Error::CouldNotParseFontFile(path));
    }
    let dimensions = match parse_usize_line(bytes, 0) {
        Some(v) => v,
        None => {
            return Err(Error::CouldNotParseFontFile(path));
        },
    };
    let columns = match parse_usize_line(bytes, 22) {
        Some(v) => v,
        None => {
            return Err(Error::CouldNotParseFontFile(path));
        },
    };
    let rows = match parse_usize_line(bytes, 44) {
        Some(v) => v,
        None => {
            return Err(Error::CouldNotParseFontFile(path));
        },
    };
    let padding = match parse_usize_line(bytes, 66) {
        Some(v) => v,
        None => {
            return Err(Error::CouldNotParseFontFile(path));
        },
    };
    let slot_glyph_size = match parse_usize_line(bytes, 88) {
        Some(v) => v,
        None => {
            return Err(Error::CouldNotParseFontFile(path));
        },
    };
    let glyph_size = match parse_usize_line(bytes, 110) {
        Some(v) => v,
        None => {
            return Err(Error::CouldNotParseFontFile(path));
        },
    };
    let mut glyphs: HashMap<usize, GlyphMetadata> = HashMap::new();
    let mut k: usize = 0;
    while k < 224
        invariant
            k <= 224,
            forall|c: usize| glyphs@.contains_key(c) <==> 32 <= c < 32 + k,
            forall|c: usize|
                32 <= c < 32 + k ==> (#[trigger] glyphs@[c]).code_point == c && whole.subrange(
                    132 + (c - 32) * 242,
                    132 + (c - 31) * 242,
                ) == spec_encode_glyph(glyphs@[c]),
        decreases 224 - k,
    {
        let ghost record_range = whole.subrange(132 + (k as int) * 242, 132 + (k as int + 1) * 242);
        proof {
            assert forall|meta: BitmapFontAtlasMetadata|
                meta.wf() && spec_encode_metadata(meta) == whole implies record_range
                == spec_encode_glyph(meta.glyph_metadata@[(32 + k) as usize]) by {
                lemma_document_parts(meta);
                lemma_records_slice(meta.glyph_metadata@, 256, 32 + k as int);
                assert(record_range =~= whole.subrange(132, DOCUMENT_BYTES as int).subrange(
                    (k as int) * 242,
                    (k as int + 1) * 242,
                ));
            }
        }
        let entry = match parse_glyph(bytes, HEADER_BYTES + k * GLYPH_RECORD_BYTES) {
            Some(g) => g,
            None => {
                return Err(Error::CouldNotParseFontFile(path));
            },
        };
        if entry.code_point != 32 + k {
            return Err(Error::CouldNotParseFontFile(path));
        }
        glyphs.insert(entry.code_point, entry);
        k = k + 1;
    }
    let decoded = BitmapFontAtlasMetadata {
        dimensions,
        columns,
        rows,
        padding,
        slot_glyph_size,
        glyph_size,
        glyph_metadata: glyphs,
    };
    proof {
        lemma_document_parts(decoded);
        let tail = whole.subrange(132, DOCUMENT_BYTES as int);
        assert forall|c: int|
            32 <= c < 256 implies tail.subrange((c - 32) * 242, (c - 31) * 242)
            == spec_encode_glyph(#[trigger] decoded.glyph_metadata@[c as usize]) by {
            assert(tail.subrange((c - 32) * 242, (c - 31) * 242) =~= whole.subrange(
                132 + (c - 32) * 242,
                132 + (c - 31) * 242,
            ));
        }
        lemma_records_from_slices(decoded.glyph_metadata@, tail, 256);
        let doc = spec_encode_metadata(decoded);
        assert forall|i: int| 0 <= i < DOCUMENT_BYTES implies whole[i] == doc[i] by {
            if i < 22 {
                assert(whole[i] == whole.subrange(0, 22)[i]);
                assert(doc[i] == doc.subrange(0, 22)[i]);
            } else if i < 44 {
                assert(whole[i] == whole.subrange(22, 44)[i - 22]);
                assert(doc[i] == doc.subrange(22, 44)[i - 22]);
            } else if i < 66 {
                assert(whole[i] == whole.subrange(44, 66)[i - 44]);
                assert(doc[i] == doc.subrange(44, 66)[i - 44]);
            } else if i < 88 {
                assert(whole[i] == whole.subrange(66, 88)[i - 66]);
                assert(doc[i] == doc.subrange(66, 88)[i - 66]);
            } else if i < 110 {
                assert(whole[i] == whole.subrange(88, 110)[i - 88]);
                assert(doc[i] == doc.subrange(88, 110)[i - 88]);
            } else if i < 132 {
                assert(whole[i] == whole.subrange(110, 132)[i - 110]);
                assert(doc[i] == doc.subrange(110, 132)[i - 110]);
            } else {
                assert(whole[i] == whole.subrange(132, DOCUMENT_BYTES as int)[i - 132]);
                assert(doc[i] == doc.subrange(132, DOCUMENT_BYTES as int)[i - 132]);
            }
        }
        assert(whole =~= spec_encode_metadata(decoded));
    }
    Ok(decoded)
}

/// No two rationals share an encoding.
proof fn lemma_rational_injective(a: Rational, b: Rational)
    requires
        spec_encode_rational(a) == spec_encode_rational(b),
    ensures
        a == b,
{
    lemma_pow10_constants();
    lemma_rational_parts(a);
    lemma_rational_parts(b);
    lemma_line_injective(a.numer as int, b.numer as int);
    lemma_line_injective(a.denom as int, b.denom as int);
}

/// No two glyph entries share an encoding.
proof fn lemma_glyph_injective(a: GlyphMetadata, b: GlyphMetadata)
    requires
        spec_encode_glyph(a) == spec_encode_glyph(b),
    ensures
        a == b,
{
    lemma_pow10_constants();
    lemma_glyph_parts(a);
    lemma_glyph_parts(b);
    lemma_line_injective(a.code_point as int, b.code_point as int);
    lemma_rational_injective(a.x_min, b.x_min);
    lemma_rational_injective(a.width, b.width);
    lemma_rational_injective(a.height, b.height);
    lemma_rational_injective(a.y_min, b.y_min);
    lemma_rational_injective(a.y_offset, b.y_offset);
}

/// The document determines the metadata: two well-formed metadata bundles
/// with the same encoding carry the same configuration and an identical
/// metadata map. Together with the contracts of [`encode_metadata`] and
/// [`decode_metadata`], this is the round trip: decoding the document
/// written for an atlas yields that atlas's metadata back, exactly.
pub proof fn lemma_document_determines_metadata(
    m1: BitmapFontAtlasMetadata,
    m2: BitmapFontAtlasMetadata,
)
    requires
        m1.wf(),
        m2.wf(),
        spec_encode_metadata(m1) == spec_encode_metadata(m2),
    ensures
        m1.equivalent(m2),
{
    lemma_pow10_constants();
    lemma_document_parts(m1);
    lemma_document_parts(m2);
    lemma_line_injective(m1.dimensions as int, m2.dimensions as int);
    lemma_line_injective(m1.columns as int, m2.columns as int);
    lemma_line_injective(m1.rows as int, m2.rows as int);
    lemma_line_injective(m1.padding as int, m2.padding as int);
    lemma_line_injective(m1.slot_glyph_size as int, m2.slot_glyph_size as int);
    lemma_line_injective(m1.glyph_size as int, m2.glyph_size as int);
    assert forall|c: usize| 32 <= c < 256 implies m1.glyph_metadata@[c] == m2.glyph_metadata@[c] by {
        lemma_records_slice(m1.glyph_metadata@, 256, c as int);
        lemma_records_slice(m2.glyph_metadata@, 256, c as int);
        lemma_glyph_injective(m1.glyph_metadata@[c], m2.glyph_metadata@[c]);
    }
    assert(m1.glyph_metadata@ =~= m2.glyph_metadata@);
}

} // verus!
