//! Crockford base-32 text for identifiers: uppercase on output,
//! case-insensitive on input, order-preserving for fixed-width values.
use crate::text::string_of;
use crate::text::chars_of;
use vstd::prelude::*;

verus! {

/// The symbol of a 5-bit digit: `0-9`, then `A-Z` without `I`, `L`, `O`, `U`.
pub open spec fn symbol(d: nat) -> char {
    if d == 0 { '0' } else if d == 1 { '1' } else if d == 2 { '2' } else if d == 3 { '3' }
    else if d == 4 { '4' } else if d == 5 { '5' } else if d == 6 { '6' } else if d == 7 { '7' }
    else if d == 8 { '8' } else if d == 9 { '9' } else if d == 10 { 'A' } else if d == 11 { 'B' }
    else if d == 12 { 'C' } else if d == 13 { 'D' } else if d == 14 { 'E' } else if d == 15 { 'F' }
    else if d == 16 { 'G' } else if d == 17 { 'H' } else if d == 18 { 'J' } else if d == 19 { 'K' }
    else if d == 20 { 'M' } else if d == 21 { 'N' } else if d == 22 { 'P' } else if d == 23 { 'Q' }
    else if d == 24 { 'R' } else if d == 25 { 'S' } else if d == 26 { 'T' } else if d == 27 { 'V' }
    else if d == 28 { 'W' } else if d == 29 { 'X' } else if d == 30 { 'Y' } else { 'Z' }
}

/// The code point of `symbol(d)`, written as arithmetic.
pub open spec fn symbol_code(d: nat) -> nat {
    if d < 10 { d + 48 }
    else if d < 18 { d + 55 }
    else if d < 20 { d + 56 }
    else if d < 22 { d + 57 }
    else if d < 27 { d + 58 }
    else { d + 59 }
}

pub proof fn lemma_symbol_code(d: nat)
    requires
        d < 32,
    ensures
        symbol(d) as u32 == symbol_code(d),
{
}

/// The `w` lowest base-32 digits of `v`, most significant first.
pub open spec fn digits(v: nat, w: nat) -> Seq<char>
    decreases w,
{
    if w == 0 {
        Seq::empty()
    } else {
        digits(v / 32, (w - 1) as nat).push(symbol(v % 32))
    }
}

fn symbol_of(d: u8) -> (r: char)
    requires
        d < 32,
    ensures
        r == symbol(d as nat),
{
    let table: [char; 32] = [
        '0', '1', '2', '3', '4', '5', '6', '7', '8', '9', 'A', 'B', 'C', 'D', 'E', 'F',
        'G', 'H', 'J', 'K', 'M', 'N', 'P', 'Q', 'R', 'S', 'T', 'V', 'W', 'X', 'Y', 'Z',
    ];
    table[d as usize]
}


/// The value of a 5-bit digit written as `c`, in either case; `I`, `L`, `O`,
/// `U` and every other character have none.
pub open spec fn digit_of(c: char) -> Option<nat> {
    let u = c as u32;
    let up: nat = if 97 <= u && u <= 122 { (u - 32) as nat } else { u as nat };
    if 48 <= up && up <= 57 { Some((up - 48) as nat) }
    else if 65 <= up && up <= 72 { Some((up - 55) as nat) }
    else if 74 <= up && up <= 75 { Some((up - 56) as nat) }
    else if 77 <= up && up <= 78 { Some((up - 57) as nat) }
    else if 80 <= up && up <= 84 { Some((up - 58) as nat) }
    else if 86 <= up && up <= 90 { Some((up - 59) as nat) }
    else { None }
}

/// Every character of `s` is a digit.
pub open spec fn all_digits(s: Seq<char>) -> bool {
    forall|i: int| 0 <= i < s.len() ==> (#[trigger] digit_of(s[i])) is Some
}

/// The number that the digits of `s` write, most significant first.
pub open spec fn value_of(s: Seq<char>) -> nat
    decreases s.len(),
{
    if s.len() == 0 {
        0
    } else {
        value_of(s.drop_last()) * 32 + digit_of(s.last()).unwrap_or(0)
    }
}

/// `a` sorts strictly before `b` as text of the same length.
pub open spec fn text_lt(a: Seq<char>, b: Seq<char>) -> bool {
    exists|i: int|
        0 <= i < a.len() && i < b.len() && a.subrange(0, i) == b.subrange(0, i) && (a[i] as u32)
            < (b[i] as u32)
}

/// The identifier text of a timestamp: its 64 bits and one zero bit of
/// padding, as thirteen digits.
pub open spec fn timestamp_text(t: nat) -> Seq<char> {
    digits(t * 2, 13)
}

/// The identifier text of sixteen bytes read as a big-endian number: its
/// 128 bits and two zero bits of padding, as twenty-six digits.
pub open spec fn half_digest_text(n: nat) -> Seq<char> {
    digits(n * 4, 26)
}

/// What a timestamp identifier decodes to: thirteen digits, in either case,
/// without the padding bit.
pub open spec fn decoded_timestamp(s: Seq<char>) -> Option<nat> {
    if s.len() == 13 && all_digits(s) {
        Some(value_of(s) / 2)
    } else {
        None
    }
}

pub proof fn lemma_digits_len(v: nat, w: nat)
    ensures
        digits(v, w).len() == w,
    decreases w,
{
    if w > 0 {
        lemma_digits_len(v / 32, (w - 1) as nat);
    }
}

/// Digits compare as numbers: the smaller of two values below `32^w` has
/// the smaller symbol at the first place where their texts differ.
pub proof fn lemma_digits_order(v1: nat, v2: nat, w: nat) -> (i: int)
    requires
        v1 < v2,
        v2 < pow32(w),
    ensures
        0 <= i < w,
        digits(v1, w).len() == w,
        digits(v2, w).len() == w,
        digits(v1, w).subrange(0, i) == digits(v2, w).subrange(0, i),
        (digits(v1, w)[i] as u32) < (digits(v2, w)[i] as u32),
    decreases w,
{
    lemma_digits_len(v1, w);
    lemma_digits_len(v2, w);
    if w == 0 {
        assert(false);
        0
    } else {
        let w1 = (w - 1) as nat;
        let h1 = v1 / 32;
        let h2 = v2 / 32;
        assert(h2 < pow32(w1)) by {
            assert(v2 < 32 * pow32(w1));
            vstd::arithmetic::div_mod::lemma_div_by_multiple_is_strongly_ordered(
                v2 as int,
                (32 * pow32(w1)) as int,
                pow32(w1) as int,
                32,
            );
            vstd::arithmetic::div_mod::lemma_div_multiples_vanish(pow32(w1) as int, 32);
        }
        lemma_digits_len(h1, w1);
        lemma_digits_len(h2, w1);
        if h1 < h2 {
            let j = lemma_digits_order(h1, h2, w1);
            assert(digits(v1, w).subrange(0, j) == digits(h1, w1).subrange(0, j));
            assert(digits(v2, w).subrange(0, j) == digits(h2, w1).subrange(0, j));
            j
        } else {
            assert(h1 == h2) by {
                vstd::arithmetic::div_mod::lemma_div_is_ordered(v1 as int, v2 as int, 32);
            }
            assert(v1 % 32 < v2 % 32) by {
                vstd::arithmetic::div_mod::lemma_fundamental_div_mod(v1 as int, 32);
                vstd::arithmetic::div_mod::lemma_fundamental_div_mod(v2 as int, 32);
            }
            lemma_symbol_code(v1 % 32);
            lemma_symbol_code(v2 % 32);
            assert(digits(v1, w).subrange(0, w1 as int) =~= digits(h1, w1));
            assert(digits(v2, w).subrange(0, w1 as int) =~= digits(h2, w1));
            w1 as int
        }
    }
}

/// `32^w`.
pub open spec fn pow32(w: nat) -> nat
    decreases w,
{
    if w == 0 {
        1
    } else {
        32 * pow32((w - 1) as nat)
    }
}

/// Timestamp identifiers sort as their instants do.
pub proof fn lemma_timestamp_order(t1: u64, t2: u64)
    requires
        t1 < t2,
    ensures
        text_lt(timestamp_text(t1 as nat), timestamp_text(t2 as nat)),
{
    reveal_with_fuel(pow32, 14);
    assert(pow32(13) == 0x2_0000_0000_0000_0000);
    let i = lemma_digits_order(t1 as nat * 2, t2 as nat * 2, 13);
    assert(timestamp_text(t1 as nat).subrange(0, i) == timestamp_text(t2 as nat).subrange(0, i));
}

/// The `w` lowest digits of `v`.
fn encode_digits(v: u128, w: usize) -> (r: Vec<char>)
    ensures
        r@ == digits(v as nat, w as nat),
{
    let mut buf: Vec<char> = Vec::new();
    let mut k: usize = 0;
    while k < w
        invariant
            k <= w,
            buf@.len() == k,
        decreases w - k,
    {
        buf.push('0');
        k = k + 1;
    }
    let mut rest: u128 = v;
    let mut i: usize = w;
    proof {
        assert(buf@.subrange(w as int, w as int) =~= Seq::<char>::empty());
    }
    while i > 0
        invariant
            i <= w,
            buf@.len() == w,
            digits(v as nat, w as nat) == digits(rest as nat, i as nat) + buf@.subrange(
                i as int,
                w as int,
            ),
        decreases i,
    {
        let d = (rest % 32) as u8;
        let c = symbol_of(d);
        let ghost before = buf@;
        buf.set(i - 1, c);
        proof {
            assert(buf@.subrange(i - 1, w as int) =~= seq![c] + before.subrange(i as int, w as int));
            assert(digits(rest as nat, i as nat) == digits((rest / 32) as nat, (i - 1) as nat).push(c));
            assert(digits((rest / 32) as nat, (i - 1) as nat).push(c) + before.subrange(i as int, w as int)
                =~= digits((rest / 32) as nat, (i - 1) as nat) + buf@.subrange(i - 1, w as int));
        }
        rest = rest / 32;
        i = i - 1;
    }
    proof {
        assert(buf@.subrange(0, w as int) =~= buf@);
        assert(digits(rest as nat, 0) + buf@ =~= buf@);
    }
    buf
}

/// The number that bytes write, most significant first.
pub open spec fn be_value(b: Seq<u8>) -> nat
    decreases b.len(),
{
    if b.len() == 0 {
        0
    } else {
        be_value(b.drop_last()) * 256 + b.last() as nat
    }
}

/// `256^k`.
pub open spec fn pow256(k: nat) -> nat
    decreases k,
{
    if k == 0 {
        1
    } else {
        256 * pow256((k - 1) as nat)
    }
}

proof fn lemma_pow256_mono(i: nat, j: nat)
    requires
        i <= j,
    ensures
        pow256(i) <= pow256(j),
    decreases j,
{
    if i < j {
        lemma_pow256_mono(i, (j - 1) as nat);
    }
}

proof fn lemma_symbol_digit(d: nat)
    requires
        d < 32,
    ensures
        digit_of(symbol(d)) == Some(d),
{
    lemma_symbol_code(d);
}

/// Digits read back as the value they were written from, below `32^w`.
pub proof fn lemma_digits_value(v: nat, w: nat)
    ensures
        all_digits(digits(v, w)),
        value_of(digits(v, w)) == v % pow32(w),
    decreases w,
{
    lemma_digits_len(v, w);
    if w == 0 {
        assert(v % 1 == 0);
    } else {
        let w1 = (w - 1) as nat;
        lemma_digits_value(v / 32, w1);
        lemma_digits_len(v / 32, w1);
        let s = digits(v, w);
        assert(s.drop_last() =~= digits(v / 32, w1));
        lemma_symbol_digit(v % 32);
        assert forall|i: int| 0 <= i < s.len() implies (#[trigger] digit_of(s[i])) is Some by {
            if i < w1 {
                assert(s[i] == digits(v / 32, w1)[i]);
            }
        }
        lemma_pow32_mono(0, w1);
        vstd::arithmetic::div_mod::lemma_mod_breakdown(v as int, 32, pow32(w1) as int);
    }
}

/// Decoding the identifier text of a timestamp gives the timestamp back.
pub proof fn lemma_timestamp_round_trip(t: u64)
    ensures
        decoded_timestamp(timestamp_text(t as nat)) == Some(t as nat),
{
    reveal_with_fuel(pow32, 14);
    assert(pow32(13) == 0x2_0000_0000_0000_0000);
    lemma_digits_value(t as nat * 2, 13);
    lemma_digits_len(t as nat * 2, 13);
    vstd::arithmetic::div_mod::lemma_small_mod((t as nat * 2) as nat, pow32(13));
}

/// The identifier text of a timestamp.
pub fn encode_timestamp(t: u64) -> (r: String)
    ensures
        r@ == timestamp_text(t as nat),
{
    let v = encode_digits((t as u128) * 2, 13);
    string_of(&v)
}

proof fn lemma_pad2(n: nat)
    ensures
        (n * 4) / 32 == n / 8,
        (n * 4) % 32 == (n % 8) * 4,
{
    vstd::arithmetic::div_mod::lemma_fundamental_div_mod(n as int, 8);
    let q = n / 8;
    let r = n % 8;
    assert(n * 4 == q * 32 + r * 4) by (nonlinear_arith)
        requires
            n == q * 8 + r,
    ;
    vstd::arithmetic::div_mod::lemma_fundamental_div_mod_converse(
        (n * 4) as int,
        32,
        q as int,
        (r * 4) as int,
    );
}

/// The identifier text of the first sixteen bytes of a digest.
pub fn encode_half_digest(digest: &Vec<u8>) -> (r: String)
    requires
        digest@.len() >= 16,
    ensures
        r@ == half_digest_text(be_value(digest@.subrange(0, 16))),
{
    let mut n: u128 = 0;
    let mut i: usize = 0;
    proof {
        reveal_with_fuel(pow256, 17);
        assert(pow256(16) == 0x1_0000_0000_0000_0000_0000_0000_0000_0000);
    }
    while i < 16
        invariant
            i <= 16,
            digest@.len() >= 16,
            n as nat == be_value(digest@.subrange(0, i as int)),
            (n as nat) < pow256(i as nat),
            pow256(16) == 0x1_0000_0000_0000_0000_0000_0000_0000_0000,
        decreases 16 - i,
    {
        let b = digest[i];
        proof {
            lemma_pow256_mono((i + 1) as nat, 16);
            let p = pow256(i as nat);
            assert((n as nat) * 256 + (b as nat) < 256 * p) by (nonlinear_arith)
                requires
                    (n as nat) < p,
                    (b as nat) < 256,
            ;
            assert(digest@.subrange(0, i + 1).drop_last() =~= digest@.subrange(0, i as int));
        }
        n = n * 256 + (b as u128);
        i = i + 1;
    }
    proof {
        lemma_pad2(n as nat);
    }
    let mut v = encode_digits(n / 8, 25);
    let last = symbol_of(((n % 8) * 4) as u8);
    v.push(last);
    string_of(&v)
}

/// The value of a digit character, in either case.
pub(crate) fn digit_value(c: char) -> (r: Option<u8>)
    ensures
        match r {
            Some(d) => digit_of(c) == Some(d as nat) && d < 32,
            None => digit_of(c) is None,
        },
{
    let u0 = c as u32;
    let u = if 97 <= u0 && u0 <= 122 { u0 - 32 } else { u0 };
    if 48 <= u && u <= 57 {
        Some((u - 48) as u8)
    } else if 65 <= u && u <= 72 {
        Some((u - 55) as u8)
    } else if 74 <= u && u <= 75 {
        Some((u - 56) as u8)
    } else if 77 <= u && u <= 78 {
        Some((u - 57) as u8)
    } else if 80 <= u && u <= 84 {
        Some((u - 58) as u8)
    } else if 86 <= u && u <= 90 {
        Some((u - 59) as u8)
    } else {
        None
    }
}

/// The timestamp that an identifier text holds: thirteen digits in either
/// case; `None` on another length or on a character outside the alphabet.
pub fn decode_timestamp(id: &str) -> (r: Option<u64>)
    ensures
        match r {
            Some(t) => decoded_timestamp(id@) == Some(t as nat),
            None => decoded_timestamp(id@) is None,
        },
{
    let cs = chars_of(id);
    if cs.len() != 13 {
        return None;
    }
    let mut v: u128 = 0;
    let mut i: usize = 0;
    proof {
        reveal_with_fuel(pow32, 14);
        assert(pow32(13) == 0x2_0000_0000_0000_0000);
    }
    while i < 13
        invariant
            i <= 13,
            cs@ == id@,
            cs@.len() == 13,
            all_digits(cs@.subrange(0, i as int)),
            v as nat == value_of(cs@.subrange(0, i as int)),
            (v as nat) < pow32(i as nat),
            pow32(13) == 0x2_0000_0000_0000_0000,
        decreases 13 - i,
    {
        let d = match digit_value(cs[i]) {
            Some(d) => d,
            None => {
                proof {
                    assert(!all_digits(cs@));
                }
                return None;
            },
        };
        proof {
            lemma_pow32_mono((i + 1) as nat, 13);
            let p = pow32(i as nat);
            assert((v as nat) * 32 + (d as nat) < 32 * p) by (nonlinear_arith)
                requires
                    (v as nat) < p,
                    (d as nat) < 32,
            ;
            let s1 = cs@.subrange(0, i + 1);
            assert(s1.drop_last() =~= cs@.subrange(0, i as int));
            assert forall|j: int| 0 <= j < s1.len() implies (#[trigger] digit_of(s1[j])) is Some by {
                if j < i {
                    assert(s1[j] == cs@.subrange(0, i as int)[j]);
                }
            }
        }
        v = v * 32 + (d as u128);
        i = i + 1;
    }
    proof {
        assert(cs@.subrange(0, 13) =~= cs@);
    }
    Some((v / 2) as u64)
}

proof fn lemma_pow32_mono(i: nat, j: nat)
    requires
        i <= j,
    ensures
        pow32(i) <= pow32(j),
    decreases j,
{
    if i < j {
        lemma_pow32_mono(i, (j - 1) as nat);
    }
}

} // verus!
