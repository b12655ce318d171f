//! Byte-level text helpers: ASCII classification, decimal and hexadecimal
//! numerals, and comparisons used by the configuration parsers.
use vstd::prelude::*;

verus! {

// ---------------------------------------------------------------------------
// ASCII classification and lowercasing
// ---------------------------------------------------------------------------

pub open spec fn spec_is_digit(b: u8) -> bool {
    48 <= b <= 57
}

pub open spec fn spec_is_hex_digit(b: u8) -> bool {
    spec_is_digit(b) || (97 <= b <= 102) || (65 <= b <= 70)
}

/// Numeric value of one hexadecimal digit byte.
pub open spec fn spec_hex_digit_value(b: u8) -> nat {
    if spec_is_digit(b) {
        (b - 48) as nat
    } else if 97 <= b <= 102 {
        (b - 87) as nat
    } else {
        (b - 55) as nat
    }
}

/// ASCII lowercase of one byte; bytes outside 'A'..='Z' are unchanged.
pub open spec fn spec_lower_byte(b: u8) -> u8 {
    if 65 <= b <= 90 {
        (b + 32) as u8
    } else {
        b
    }
}

/// ASCII lowercase applied to a byte sequence.
pub open spec fn spec_lower_bytes(s: Seq<u8>) -> Seq<u8> {
    s.map_values(|b: u8| spec_lower_byte(b))
}

/// The sequence with every ASCII space removed.
pub open spec fn spec_strip_spaces(s: Seq<u8>) -> Seq<u8>
    decreases s.len(),
{
    if s.len() == 0 {
        Seq::empty()
    } else if s.last() == 32 {
        spec_strip_spaces(s.drop_last())
    } else {
        spec_strip_spaces(s.drop_last()).push(s.last())
    }
}

pub fn is_digit(b: u8) -> (r: bool)
    ensures
        r == spec_is_digit(b),
{
    48 <= b && b <= 57
}

pub fn is_hex_digit(b: u8) -> (r: bool)
    ensures
        r == spec_is_hex_digit(b),
{
    (48 <= b && b <= 57) || (97 <= b && b <= 102) || (65 <= b && b <= 70)
}

pub fn hex_digit_value(b: u8) -> (r: u8)
    requires
        spec_is_hex_digit(b),
    ensures
        r as nat == spec_hex_digit_value(b),
        r < 16,
{
    if 48 <= b && b <= 57 {
        b - 48
    } else if 97 <= b && b <= 102 {
        b - 87
    } else {
        b - 55
    }
}

/// ASCII lowercase with spaces removed, as the size parser normalises input.
pub fn lower_and_strip_spaces(s: &[u8]) -> (r: Vec<u8>)
    ensures
        r@ == spec_strip_spaces(spec_lower_bytes(s@)),
{
    let mut out: Vec<u8> = Vec::new();
    let mut i: usize = 0;
    proof {
        assert(spec_lower_bytes(s@.take(0)) =~= Seq::<u8>::empty());
    }
    while i < s.len()
        invariant
            i <= s.len(),
            out@ == spec_strip_spaces(spec_lower_bytes(s@.take(i as int))),
        decreases s.len() - i,
    {
        let b = s[i];
        let low = if 65 <= b && b <= 90 { b + 32 } else { b };
        proof {
            let prev = spec_lower_bytes(s@.take(i as int));
            let lb = spec_lower_byte(s@[i as int]);
            assert(spec_lower_bytes(s@.take(i + 1)) =~= prev.push(lb));
            assert(prev.push(lb).drop_last() =~= prev);
            assert(low == lb);
        }
        if low != 32 {
            out.push(low);
        }
        i = i + 1;
    }
    proof {
        assert(s@.take(s@.len() as int) =~= s@);
    }
    out
}

/// Without spaces, stripping spaces changes nothing.
pub proof fn lemma_strip_spaces_id(s: Seq<u8>)
    requires
        forall|i: int| 0 <= i < s.len() ==> s[i] != 32,
    ensures
        spec_strip_spaces(s) == s,
    decreases s.len(),
{
    if s.len() > 0 {
        lemma_strip_spaces_id(s.drop_last());
        assert(spec_strip_spaces(s.drop_last()).push(s.last()) =~= s);
    } else {
        assert(spec_strip_spaces(s) =~= s);
    }
}

// ---------------------------------------------------------------------------
// Decimal numerals
// ---------------------------------------------------------------------------

pub open spec fn spec_all_digits(s: Seq<u8>) -> bool {
    forall|i: int| 0 <= i < s.len() ==> spec_is_digit(#[trigger] s[i])
}

/// Value of a digit string, most significant digit first.
pub open spec fn spec_dec_value(s: Seq<u8>) -> nat
    decreases s.len(),
{
    if s.len() == 0 {
        0
    } else {
        spec_dec_value(s.drop_last()) * 10 + ((s.last() - 48) as nat)
    }
}

/// What `u64` parsing accepts: an optional leading `+`, then one or more
/// digits whose value fits.
pub open spec fn spec_parse_u64_dec(s: Seq<u8>) -> Option<u64> {
    let t = if s.len() >= 1 && s[0] == 43 {
        s.drop_first()
    } else {
        s
    };
    if t.len() == 0 || !spec_all_digits(t) || spec_dec_value(t) > u64::MAX {
        None
    } else {
        Some(spec_dec_value(t) as u64)
    }
}

proof fn lemma_dec_value_take_step(s: Seq<u8>, i: int)
    requires
        0 <= i < s.len(),
    ensures
        spec_dec_value(s.take(i + 1)) == spec_dec_value(s.take(i)) * 10 + ((s[i] - 48) as nat),
{
    assert(s.take(i + 1).drop_last() =~= s.take(i));
    assert(s.take(i + 1).last() == s[i]);
}

/// A digit prefix never exceeds the whole digit string in value.
proof fn lemma_dec_prefix_le(s: Seq<u8>, i: int)
    requires
        0 <= i <= s.len(),
        spec_all_digits(s),
    ensures
        spec_dec_value(s.take(i)) <= spec_dec_value(s),
    decreases s.len() - i,
{
    if i < s.len() {
        lemma_dec_value_take_step(s, i);
        assert(spec_dec_value(s.take(i + 1)) >= spec_dec_value(s.take(i)));
        lemma_dec_prefix_le(s, i + 1);
    } else {
        assert(s.take(i) =~= s);
    }
}

/// Parses a decimal `u64`; `None` on empty input, a non-digit, or overflow.
pub fn parse_u64_dec(s: &[u8]) -> (r: Option<u64>)
    ensures
        r == spec_parse_u64_dec(s@),
{
    let mut start: usize = 0;
    if s.len() >= 1 && s[0] == 43 {
        start = 1;
    }
    let ghost t = if s@.len() >= 1 && s@[0] == 43 {
        s@.drop_first()
    } else {
        s@
    };
    proof {
        assert(t =~= s@.subrange(start as int, s@.len() as int));
    }
    if s.len() == start {
        return None;
    }
    let mut acc: u64 = 0;
    let mut i: usize = start;
    proof {
        assert(t.take(0) =~= Seq::<u8>::empty());
    }
    while i < s.len()
        invariant
            start <= i <= s.len(),
            start == (if s@.len() >= 1 && s@[0] == 43 { 1int } else { 0int }),
            t == (if s@.len() >= 1 && s@[0] == 43 { s@.drop_first() } else { s@ }),
            t =~= s@.subrange(start as int, s@.len() as int),
            spec_all_digits(t.take(i - start)),
            acc as nat == spec_dec_value(t.take(i - start)),
        decreases s.len() - i,
    {
        let b = s[i];
        if !(48 <= b && b <= 57) {
            proof {
                assert(t[i - start] == s@[i as int]);
                assert(!spec_is_digit(t[i - start]));
                assert(!spec_all_digits(t));
            }
            return None;
        }
        let d = b - 48;
        if acc > (u64::MAX - d as u64) / 10 {
            proof {
                lemma_dec_value_take_step(t, i - start);
                assert(t[i - start] == s@[i as int]);
                assert(acc as nat >= (u64::MAX - d) as nat / 10 + 1);
                assert(acc as nat * 10 + d as nat > u64::MAX) by (nonlinear_arith)
                    requires
                        acc as nat >= (u64::MAX - d) as nat / 10 + 1,
                        d < 10,
                {}
                assert(spec_dec_value(t.take(i - start + 1)) > u64::MAX);
                if spec_all_digits(t) {
                    lemma_dec_prefix_le(t, i - start + 1);
                }
            }
            return None;
        }
        let new_acc = acc * 10 + d as u64;
        proof {
            lemma_dec_value_take_step(t, i - start);
            assert(t[i - start] == s@[i as int]);
            assert(t.take(i - start + 1) =~= t.take(i - start).push(t[i - start]));
        }
        acc = new_acc;
        i = i + 1;
    }
    proof {
        assert(t.take(t.len() as int) =~= t);
    }
    Some(acc)
}

/// Digits of a positive number, most significant first; empty for zero.
pub open spec fn spec_dec_digits(x: nat) -> Seq<u8>
    decreases x,
{
    if x == 0 {
        Seq::empty()
    } else {
        spec_dec_digits(x / 10).push((x % 10 + 48) as u8)
    }
}

/// Decimal rendering of `x`: "0" for zero, else its digits.
pub open spec fn spec_format_u64_dec(x: nat) -> Seq<u8> {
    if x == 0 {
        seq![48u8]
    } else {
        spec_dec_digits(x)
    }
}

proof fn lemma_dec_digits_digits(x: nat)
    ensures
        spec_all_digits(spec_dec_digits(x)),
        spec_dec_value(spec_dec_digits(x)) == x,
        x > 0 ==> spec_dec_digits(x).len() >= 1,
    decreases x,
{
    if x > 0 {
        lemma_dec_digits_digits(x / 10);
        let s = spec_dec_digits(x);
        assert(s.drop_last() =~= spec_dec_digits(x / 10));
        assert forall|i: int| 0 <= i < s.len() implies spec_is_digit(#[trigger] s[i]) by {
            if i < s.len() - 1 {
                assert(s[i] == spec_dec_digits(x / 10)[i]);
            }
        }
    }
}

pub proof fn lemma_format_u64_dec_digits(x: nat)
    ensures
        spec_format_u64_dec(x).len() >= 1,
        spec_all_digits(spec_format_u64_dec(x)),
        spec_dec_value(spec_format_u64_dec(x)) == x,
{
    lemma_dec_digits_digits(x);
    if x == 0 {
        let s = spec_format_u64_dec(x);
        assert(s.drop_last() =~= Seq::<u8>::empty());
    }
}

/// Rendering then parsing gives the number back.
pub proof fn lemma_dec_round_trip(x: u64)
    ensures
        spec_parse_u64_dec(spec_format_u64_dec(x as nat)) == Some(x),
{
    lemma_format_u64_dec_digits(x as nat);
    let s = spec_format_u64_dec(x as nat);
    assert(spec_is_digit(s[0]));
}

pub fn format_u64_dec(x: u64) -> (r: Vec<u8>)
    ensures
        r@ == spec_format_u64_dec(x as nat),
{
    if x == 0 {
        let mut out: Vec<u8> = Vec::new();
        out.push(48);
        proof {
            assert(out@ =~= seq![48u8]);
        }
        return out;
    }
    // collect least-significant digits first, then reverse
    let mut digits: Vec<u8> = Vec::new();
    let mut rest: u64 = x;
    while rest > 0
        invariant
            spec_dec_digits(x as nat) =~= spec_dec_digits(rest as nat) + digits@.reverse(),
        decreases rest,
    {
        let d = (rest % 10) as u8 + 48;
        let next = rest / 10;
        proof {
            assert(spec_dec_digits(rest as nat) =~= spec_dec_digits((rest / 10) as nat).push(
                (rest as nat % 10 + 48) as u8,
            ));
            assert(spec_dec_digits(next as nat) + digits@.push(d).reverse()
                =~= spec_dec_digits(rest as nat) + digits@.reverse());
        }
        digits.push(d);
        rest = next;
    }
    let mut out: Vec<u8> = Vec::new();
    let mut i: usize = digits.len();
    proof {
        assert(spec_dec_digits(0nat) =~= Seq::<u8>::empty());
        assert(digits@.reverse() =~= spec_dec_digits(x as nat));
    }
    while i > 0
        invariant
            i <= digits@.len(),
            out@ =~= digits@.reverse().take(digits@.len() - i),
        decreases i,
    {
        i = i - 1;
        let b = digits[i];
        proof {
            assert(digits@.reverse().take(digits@.len() - i) =~= digits@.reverse().take(
                digits@.len() - i - 1,
            ).push(digits@.reverse()[digits@.len() - i - 1]));
        }
        out.push(b);
    }
    proof {
        assert(digits@.reverse().take(digits@.len() as int) =~= digits@.reverse());
    }
    out
}

// ---------------------------------------------------------------------------
// Hexadecimal numerals
// ---------------------------------------------------------------------------

pub open spec fn spec_all_hex_digits(s: Seq<u8>) -> bool {
    forall|i: int| 0 <= i < s.len() ==> spec_is_hex_digit(#[trigger] s[i])
}

pub open spec fn spec_hex_value(s: Seq<u8>) -> nat
    decreases s.len(),
{
    if s.len() == 0 {
        0
    } else {
        spec_hex_value(s.drop_last()) * 16 + spec_hex_digit_value(s.last())
    }
}

/// What `from_str_radix(_, 16)` accepts for a `u32`: an optional leading `+`,
/// then one or more hex digits whose value fits.
pub open spec fn spec_parse_u32_hex(s: Seq<u8>) -> Option<u32> {
    let t = if s.len() >= 1 && s[0] == 43 {
        s.drop_first()
    } else {
        s
    };
    if t.len() == 0 || !spec_all_hex_digits(t) || spec_hex_value(t) > u32::MAX {
        None
    } else {
        Some(spec_hex_value(t) as u32)
    }
}

proof fn lemma_hex_value_take_step(s: Seq<u8>, i: int)
    requires
        0 <= i < s.len(),
    ensures
        spec_hex_value(s.take(i + 1)) == spec_hex_value(s.take(i)) * 16 + spec_hex_digit_value(
            s[i],
        ),
{
    assert(s.take(i + 1).drop_last() =~= s.take(i));
    assert(s.take(i + 1).last() == s[i]);
}

proof fn lemma_hex_prefix_le(s: Seq<u8>, i: int)
    requires
        0 <= i <= s.len(),
        spec_all_hex_digits(s),
    ensures
        spec_hex_value(s.take(i)) <= spec_hex_value(s),
    decreases s.len() - i,
{
    if i < s.len() {
        lemma_hex_value_take_step(s, i);
        lemma_hex_prefix_le(s, i + 1);
    } else {
        assert(s.take(i) =~= s);
    }
}

/// Parses a hexadecimal `u32`; `None` on empty input, a non-digit, or overflow.
pub fn parse_u32_hex(s: &[u8]) -> (r: Option<u32>)
    ensures
        r == spec_parse_u32_hex(s@),
{
    let mut start: usize = 0;
    if s.len() >= 1 && s[0] == 43 {
        start = 1;
    }
    let ghost t = if s@.len() >= 1 && s@[0] == 43 {
        s@.drop_first()
    } else {
        s@
    };
    proof {
        assert(t =~= s@.subrange(start as int, s@.len() as int));
    }
    if s.len() == start {
        return None;
    }
    let mut acc: u32 = 0;
    let mut i: usize = start;
    proof {
        assert(t.take(0) =~= Seq::<u8>::empty());
    }
    while i < s.len()
        invariant
            start <= i <= s.len(),
            start == (if s@.len() >= 1 && s@[0] == 43 { 1int } else { 0int }),
            t == (if s@.len() >= 1 && s@[0] == 43 { s@.drop_first() } else { s@ }),
            t =~= s@.subrange(start as int, s@.len() as int),
            spec_all_hex_digits(t.take(i - start)),
            acc as nat == spec_hex_value(t.take(i - start)),
        decreases s.len() - i,
    {
        let b = s[i];
        if !is_hex_digit(b) {
            proof {
                assert(t[i - start] == s@[i as int]);
                assert(!spec_is_hex_digit(t[i - start]));
                assert(!spec_all_hex_digits(t));
            }
            return None;
        }
        let d = hex_digit_value(b);
        if acc > (u32::MAX - d as u32) / 16 {
            proof {
                lemma_hex_value_take_step(t, i - start);
                assert(t[i - start] == s@[i as int]);
                assert(acc as nat >= (u32::MAX - d) as nat / 16 + 1);
                assert(acc as nat * 16 + spec_hex_digit_value(t[i - start]) > u32::MAX)
                    by (nonlinear_arith)
                    requires
                        acc as nat >= (u32::MAX - d) as nat / 16 + 1,
                        spec_hex_digit_value(t[i - start]) == d as nat,
                        d < 16,
                {}
                assert(spec_hex_value(t.take(i - start + 1)) > u32::MAX);
                if spec_all_hex_digits(t) {
                    lemma_hex_prefix_le(t, i - start + 1);
                }
            }
            return None;
        }
        let new_acc = acc * 16 + d as u32;
        proof {
            lemma_hex_value_take_step(t, i - start);
            assert(t[i - start] == s@[i as int]);
            assert(t.take(i - start + 1) =~= t.take(i - start).push(t[i - start]));
        }
        acc = new_acc;
        i = i + 1;
    }
    proof {
        assert(t.take(t.len() as int) =~= t);
    }
    Some(acc)
}

/// `k` ASCII zero bytes.
pub open spec fn spec_zeros(k: nat) -> Seq<u8> {
    Seq::new(k, |i: int| 48u8)
}

pub open spec fn spec_hex_digit_byte(d: nat) -> u8 {
    if d < 10 {
        (d + 48) as u8
    } else {
        (d + 87) as u8
    }
}

/// Hex digits of a positive number, most significant first; empty for zero.
pub open spec fn spec_hex_digits_pos(x: nat) -> Seq<u8>
    decreases x,
{
    if x == 0 {
        Seq::empty()
    } else {
        spec_hex_digits_pos(x / 16).push(spec_hex_digit_byte(x % 16))
    }
}

/// Lowercase hex rendering of `x` without padding.
pub open spec fn spec_hex_digits(x: nat) -> Seq<u8> {
    if x == 0 {
        seq![48u8]
    } else {
        spec_hex_digits_pos(x)
    }
}

/// `x` in lowercase hex, zero-padded on the left to at least `width` digits.
pub open spec fn spec_format_hex(x: nat, width: nat) -> Seq<u8> {
    let digits = spec_hex_digits(x);
    if digits.len() >= width {
        digits
    } else {
        spec_zeros((width - digits.len()) as nat) + digits
    }
}

proof fn lemma_hex_digits_pos_hex(x: nat)
    ensures
        spec_all_hex_digits(spec_hex_digits_pos(x)),
        spec_hex_value(spec_hex_digits_pos(x)) == x,
        x > 0 ==> spec_hex_digits_pos(x).len() >= 1,
    decreases x,
{
    if x > 0 {
        lemma_hex_digits_pos_hex(x / 16);
        let s = spec_hex_digits_pos(x);
        assert(s.drop_last() =~= spec_hex_digits_pos(x / 16));
        assert forall|i: int| 0 <= i < s.len() implies spec_is_hex_digit(#[trigger] s[i]) by {
            if i < s.len() - 1 {
                assert(s[i] == spec_hex_digits_pos(x / 16)[i]);
            }
        }
    }
}

pub proof fn lemma_hex_digits_hex(x: nat)
    ensures
        spec_hex_digits(x).len() >= 1,
        spec_all_hex_digits(spec_hex_digits(x)),
        spec_hex_value(spec_hex_digits(x)) == x,
{
    lemma_hex_digits_pos_hex(x);
    if x == 0 {
        assert(spec_hex_digits(x).drop_last() =~= Seq::<u8>::empty());
    }
}

proof fn lemma_hex_value_zeros(k: nat)
    ensures
        spec_hex_value(spec_zeros(k)) == 0,
    decreases k,
{
    if k > 0 {
        assert(spec_zeros(k).drop_last() =~= spec_zeros((k - 1) as nat));
        lemma_hex_value_zeros((k - 1) as nat);
    }
}

/// Left-padding with zeros does not change the value of a hex numeral.
pub proof fn lemma_hex_zero_pad(s: Seq<u8>, k: nat)
    ensures
        spec_hex_value(spec_zeros(k) + s) == spec_hex_value(s),
    decreases s.len(),
{
    if s.len() == 0 {
        lemma_hex_value_zeros(k);
        assert(spec_zeros(k) + s =~= spec_zeros(k));
    } else {
        assert((spec_zeros(k) + s).drop_last() =~= spec_zeros(k) + s.drop_last());
        assert((spec_zeros(k) + s).last() == s.last());
        lemma_hex_zero_pad(s.drop_last(), k);
    }
}

/// Padded rendering then parsing gives the number back.
pub proof fn lemma_hex_round_trip(x: u32, width: nat)
    ensures
        spec_parse_u32_hex(spec_format_hex(x as nat, width)) == Some(x),
{
    lemma_hex_digits_hex(x as nat);
    let digits = spec_hex_digits(x as nat);
    let s = spec_format_hex(x as nat, width);
    if digits.len() >= width {
        assert(spec_is_hex_digit(s[0]));
        assert(s[0] != 43);
    } else {
        lemma_hex_zero_pad(digits, (width - digits.len()) as nat);
        assert(s[0] == 48);
        assert forall|i: int| 0 <= i < s.len() implies spec_is_hex_digit(#[trigger] s[i]) by {
            if i >= width - digits.len() {
                assert(s[i] == digits[i - (width - digits.len())]);
            }
        }
    }
}

pub fn format_hex_u32(x: u32, width: usize) -> (r: Vec<u8>)
    ensures
        r@ == spec_format_hex(x as nat, width as nat),
{
    let mut digits: Vec<u8> = Vec::new();
    if x == 0 {
        digits.push(48);
        proof {
            assert(digits@.reverse() =~= seq![48u8]);
        }
    } else {
        let mut rest: u32 = x;
        while rest > 0
            invariant
                spec_hex_digits_pos(x as nat) =~= spec_hex_digits_pos(rest as nat)
                    + digits@.reverse(),
            decreases rest,
        {
            let dv = (rest % 16) as u8;
            let d = if dv < 10 { dv + 48 } else { dv + 87 };
            let next = rest / 16;
            proof {
                assert(d == spec_hex_digit_byte((rest as nat) % 16));
                assert(spec_hex_digits_pos(rest as nat) =~= spec_hex_digits_pos(
                    (rest / 16) as nat,
                ).push(spec_hex_digit_byte((rest as nat) % 16)));
                assert(spec_hex_digits_pos(next as nat) + digits@.push(d).reverse()
                    =~= spec_hex_digits_pos(rest as nat) + digits@.reverse());
            }
            digits.push(d);
            rest = next;
        }
        proof {
            assert(spec_hex_digits_pos(0nat) =~= Seq::<u8>::empty());
            assert(digits@.reverse() =~= spec_hex_digits_pos(x as nat));
        }
    }
    proof {
        assert(digits@.reverse() =~= spec_hex_digits(x as nat));
        assert(digits@.len() == spec_hex_digits(x as nat).len());
    }
    let mut out: Vec<u8> = Vec::new();
    let mut pad: usize = 0;
    while pad + digits.len() < width
        invariant
            digits@.reverse() =~= spec_hex_digits(x as nat),
            pad + digits@.len() <= width || pad == 0,
            out@ =~= spec_zeros(pad as nat),
        decreases width - pad - digits@.len(),
    {
        proof {
            assert(spec_zeros(pad as nat + 1) =~= spec_zeros(pad as nat).push(48u8));
        }
        out.push(48);
        pad = pad + 1;
    }
    let ghost done_pad = pad as nat;
    let mut i: usize = digits.len();
    while i > 0
        invariant
            i <= digits@.len(),
            out@ =~= spec_zeros(done_pad) + digits@.reverse().take(digits@.len() - i),
        decreases i,
    {
        i = i - 1;
        let b = digits[i];
        proof {
            assert(digits@.reverse().take(digits@.len() - i) =~= digits@.reverse().take(
                digits@.len() - i - 1,
            ).push(digits@.reverse()[digits@.len() - i - 1]));
            assert((spec_zeros(done_pad) + digits@.reverse().take(digits@.len() - i - 1)).push(
                digits@.reverse()[digits@.len() - i - 1],
            ) =~= spec_zeros(done_pad) + digits@.reverse().take(digits@.len() - i));
        }
        out.push(b);
    }
    proof {
        assert(digits@.reverse().take(digits@.len() as int) =~= digits@.reverse());
        let hd = spec_hex_digits(x as nat);
        if hd.len() >= width as nat {
            assert(done_pad == 0);
            assert(spec_zeros(0nat) + hd =~= hd);
        } else {
            assert(done_pad == width as nat - hd.len());
        }
        assert(out@ =~= spec_format_hex(x as nat, width as nat));
    }
    out
}

// ---------------------------------------------------------------------------
// Byte search
// ---------------------------------------------------------------------------

/// Index of the first occurrence of `b` in `s`, if any.
pub open spec fn spec_find(s: Seq<u8>, b: u8) -> Option<int>
    decreases s.len(),
{
    if s.len() == 0 {
        None
    } else if s[0] == b {
        Some(0)
    } else {
        match spec_find(s.drop_first(), b) {
            Some(i) => Some(i + 1),
            None => None,
        }
    }
}

/// Index of the last occurrence of `b` in `s`, if any.
pub open spec fn spec_rfind(s: Seq<u8>, b: u8) -> Option<int>
    decreases s.len(),
{
    if s.len() == 0 {
        None
    } else if s.last() == b {
        Some(s.len() - 1)
    } else {
        spec_rfind(s.drop_last(), b)
    }
}

/// `spec_find` names the first occurrence; `None` means there is none.
pub proof fn lemma_find_first(s: Seq<u8>, b: u8)
    ensures
        match spec_find(s, b) {
            Some(i) => 0 <= i < s.len() && s[i] == b && forall|j: int| 0 <= j < i ==> s[j] != b,
            None => forall|j: int| 0 <= j < s.len() ==> s[j] != b,
        },
    decreases s.len(),
{
    if s.len() > 0 && s[0] != b {
        let t = s.drop_first();
        lemma_find_first(t, b);
        match spec_find(t, b) {
            Some(i) => {
                assert(s[i + 1] == t[i]);
                assert forall|j: int| 0 <= j < i + 1 implies s[j] != b by {
                    if j > 0 {
                        assert(s[j] == t[j - 1]);
                    }
                }
            },
            None => {
                assert forall|j: int| 0 <= j < s.len() implies s[j] != b by {
                    if j > 0 {
                        assert(s[j] == t[j - 1]);
                    }
                }
            },
        }
    }
}

/// `spec_rfind` names the last occurrence; `None` means there is none.
pub proof fn lemma_rfind_last(s: Seq<u8>, b: u8)
    ensures
        match spec_rfind(s, b) {
            Some(i) => 0 <= i < s.len() && s[i] == b && forall|j: int|
                i < j < s.len() ==> s[j] != b,
            None => forall|j: int| 0 <= j < s.len() ==> s[j] != b,
        },
    decreases s.len(),
{
    if s.len() > 0 && s.last() != b {
        let t = s.drop_last();
        lemma_rfind_last(t, b);
        match spec_rfind(t, b) {
            Some(i) => {
                assert(s[i] == t[i]);
                assert forall|j: int| i < j < s.len() implies s[j] != b by {
                    if j < s.len() - 1 {
                        assert(s[j] == t[j]);
                    }
                }
            },
            None => {
                assert forall|j: int| 0 <= j < s.len() implies s[j] != b by {
                    if j < s.len() - 1 {
                        assert(s[j] == t[j]);
                    }
                }
            },
        }
    }
}

/// The first occurrence determines `spec_find`.
pub proof fn lemma_find_unique(s: Seq<u8>, b: u8, i: int)
    requires
        0 <= i < s.len(),
        s[i] == b,
        forall|j: int| 0 <= j < i ==> s[j] != b,
    ensures
        spec_find(s, b) == Some(i),
{
    lemma_find_first(s, b);
}

/// The last occurrence determines `spec_rfind`.
pub proof fn lemma_rfind_unique(s: Seq<u8>, b: u8, i: int)
    requires
        0 <= i < s.len(),
        s[i] == b,
        forall|j: int| i < j < s.len() ==> s[j] != b,
    ensures
        spec_rfind(s, b) == Some(i),
{
    lemma_rfind_last(s, b);
}

/// `spec_rfind` when `b` does not occur at all.
pub proof fn lemma_rfind_none(s: Seq<u8>, b: u8)
    requires
        forall|j: int| 0 <= j < s.len() ==> s[j] != b,
    ensures
        spec_rfind(s, b) is None,
{
    lemma_rfind_last(s, b);
    if spec_rfind(s, b) is Some {
        let i = spec_rfind(s, b)->Some_0;
        assert(s[i] == b);
    }
}

/// `spec_find` when `b` does not occur at all.
pub proof fn lemma_find_none(s: Seq<u8>, b: u8)
    requires
        forall|j: int| 0 <= j < s.len() ==> s[j] != b,
    ensures
        spec_find(s, b) is None,
{
    lemma_find_first(s, b);
    if spec_find(s, b) is Some {
        let i = spec_find(s, b)->Some_0;
        assert(s[i] == b);
    }
}

pub fn find_byte(s: &[u8], b: u8) -> (r: Option<usize>)
    ensures
        match r {
            Some(i) => spec_find(s@, b) == Some(i as int),
            None => spec_find(s@, b) is None,
        },
{
    let mut i: usize = 0;
    while i < s.len()
        invariant
            i <= s@.len(),
            forall|j: int| 0 <= j < i ==> s@[j] != b,
        decreases s.len() - i,
    {
        if s[i] == b {
            proof {
                lemma_find_unique(s@, b, i as int);
            }
            return Some(i);
        }
        i = i + 1;
    }
    proof {
        lemma_find_none(s@, b);
    }
    None
}

pub fn rfind_byte(s: &[u8], b: u8) -> (r: Option<usize>)
    ensures
        match r {
            Some(i) => spec_rfind(s@, b) == Some(i as int),
            None => spec_rfind(s@, b) is None,
        },
{
    let mut i: usize = s.len();
    while i > 0
        invariant
            i <= s@.len(),
            forall|j: int| i <= j < s@.len() ==> s@[j] != b,
        decreases i,
    {
        i = i - 1;
        if s[i] == b {
            proof {
                lemma_rfind_unique(s@, b, i as int);
            }
            return Some(i);
        }
    }
    proof {
        lemma_rfind_none(s@, b);
    }
    None
}

/// A number under 256 takes at most two hex digits.
pub proof fn lemma_hex_digits_u8_len(x: nat)
    requires
        x < 256,
    ensures
        1 <= spec_hex_digits(x).len() <= 2,
        x > 0 && x < 16 ==> spec_hex_digits(x).len() == 1,
{
    lemma_hex_digits_hex(x);
    if x >= 16 {
        let y = x / 16;
        assert(1 <= y < 16);
        assert(spec_hex_digits_pos(y) =~= spec_hex_digits_pos(y / 16).push(
            spec_hex_digit_byte(y % 16),
        ));
        assert(spec_hex_digits_pos(y / 16) =~= Seq::<u8>::empty());
    } else if x > 0 {
        assert(spec_hex_digits_pos(x) =~= spec_hex_digits_pos(x / 16).push(
            spec_hex_digit_byte(x % 16),
        ));
        assert(spec_hex_digits_pos(x / 16) =~= Seq::<u8>::empty());
    }
}

// ---------------------------------------------------------------------------
// ASCII bytes as strings
// ---------------------------------------------------------------------------

/// The characters that a sequence of ASCII bytes stands for.
pub open spec fn spec_bytes_as_chars(s: Seq<u8>) -> Seq<char> {
    s.map_values(|b: u8| b as char)
}

/// Bytes under 0x80 name ASCII characters, and those characters encode back
/// to the same bytes.
pub proof fn lemma_ascii_bytes_chars(s: Seq<u8>)
    requires
        forall|i: int| 0 <= i < s.len() ==> s[i] < 128,
    ensures
        vstd::utf8::is_ascii_chars(spec_bytes_as_chars(s)),
        vstd::utf8::encode_utf8(spec_bytes_as_chars(s)) =~= s,
{
    let cs = spec_bytes_as_chars(s);
    assert forall|i: int| 0 <= i < cs.len() implies '\0' <= #[trigger] cs[i] <= '\u{7f}' by {
        assert(cs[i] == s[i] as char);
        assert(s[i] < 128);
    }
    assert(vstd::utf8::is_ascii_chars(cs));
    vstd::utf8::is_ascii_chars_encode_utf8(cs);
    assert forall|i: int| 0 <= i < s.len() implies vstd::utf8::encode_utf8(cs)[i] == s[i] by {
        assert(cs[i] as u8 == vstd::utf8::encode_utf8(cs)[i]);
    }
}

/// Relies on `String::from_utf8`: bytes under 0x80 are valid UTF-8 and decode
/// to exactly the characters they name.
#[verifier::external_body]
pub fn ascii_to_string(v: &Vec<u8>) -> (r: String)
    requires
        forall|i: int| 0 <= i < v@.len() ==> v@[i] < 128,
    ensures
        r@ == spec_bytes_as_chars(v@),
{
    String::from_utf8(v.clone()).unwrap_or_default()
}

/// Relies on `String::from_utf8`: valid UTF-8 decodes to exactly its
/// characters, and invalid bytes are refused.
#[verifier::external_body]
pub fn utf8_to_string(v: &Vec<u8>) -> (r: Option<String>)
    ensures
        match r {
            Some(s) => vstd::utf8::valid_utf8(v@) && s@ == vstd::utf8::decode_utf8(v@),
            None => !vstd::utf8::valid_utf8(v@),
        },
{
    match String::from_utf8(v.clone()) {
        Ok(s) => Some(s),
        Err(_) => None,
    }
}

// ---------------------------------------------------------------------------
// Sequence comparisons
// ---------------------------------------------------------------------------

pub fn bytes_eq(a: &[u8], b: &[u8]) -> (r: bool)
    ensures
        r == (a@ == b@),
{
    if a.len() != b.len() {
        proof {
            assert(a@.len() != b@.len());
        }
        return false;
    }
    let mut i: usize = 0;
    while i < a.len()
        invariant
            i <= a@.len(),
            a@.len() == b@.len(),
            forall|j: int| 0 <= j < i ==> a@[j] == b@[j],
        decreases a.len() - i,
    {
        if a[i] != b[i] {
            return false;
        }
        i = i + 1;
    }
    proof {
        assert(a@ =~= b@);
    }
    true
}

/// String equality, decided on the UTF-8 bytes and lifted to the views.
pub fn str_eq(a: &str, b: &str) -> (r: bool)
    ensures
        r == (a@ == b@),
{
    let r = bytes_eq(a.as_bytes(), b.as_bytes());
    proof {
        vstd::utf8::encode_utf8_decode_utf8(a@);
        vstd::utf8::encode_utf8_decode_utf8(b@);
    }
    r
}

pub open spec fn spec_starts_with(s: Seq<u8>, prefix: Seq<u8>) -> bool {
    s.len() >= prefix.len() && s.take(prefix.len() as int) == prefix
}

pub open spec fn spec_ends_with(s: Seq<u8>, suffix: Seq<u8>) -> bool {
    s.len() >= suffix.len() && s.skip(s.len() - suffix.len()) == suffix
}

pub fn bytes_start_with(s: &[u8], prefix: &[u8]) -> (r: bool)
    ensures
        r == spec_starts_with(s@, prefix@),
{
    if s.len() < prefix.len() {
        return false;
    }
    let mut i: usize = 0;
    while i < prefix.len()
        invariant
            i <= prefix@.len(),
            s@.len() >= prefix@.len(),
            forall|j: int| 0 <= j < i ==> s@[j] == prefix@[j],
        decreases prefix.len() - i,
    {
        if s[i] != prefix[i] {
            proof {
                assert(s@.take(prefix@.len() as int)[i as int] != prefix@[i as int]);
            }
            return false;
        }
        i = i + 1;
    }
    proof {
        assert(s@.take(prefix@.len() as int) =~= prefix@);
    }
    true
}

pub fn bytes_end_with(s: &[u8], suffix: &[u8]) -> (r: bool)
    ensures
        r == spec_ends_with(s@, suffix@),
{
    if s.len() < suffix.len() {
        return false;
    }
    let off = s.len() - suffix.len();
    let mut i: usize = 0;
    while i < suffix.len()
        invariant
            i <= suffix@.len(),
            s@.len() >= suffix@.len(),
            s@.len() <= usize::MAX,
            off == s@.len() - suffix@.len(),
            forall|j: int| 0 <= j < i ==> s@[off + j] == suffix@[j],
        decreases suffix.len() - i,
    {
        proof {
            assert(off + i < s@.len());
        }
        if s[off + i] != suffix[i] {
            proof {
                assert(s@.skip(off as int)[i as int] != suffix@[i as int]);
            }
            return false;
        }
        i = i + 1;
    }
    proof {
        assert(s@.skip(off as int) =~= suffix@);
    }
    true
}

} // verus!
