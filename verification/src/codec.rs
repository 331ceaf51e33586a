//! Byte-level codecs for the token wire format: lowercase hexadecimal
//! encoding of byte strings, and canonical decimal encoding of integers
//! (no leading zeros). Both encodings are injective, which the token
//! lemmas rely on.

use vstd::prelude::*;

verus! {

// --- hexadecimal -----------------------------------------------------------

/// The lowercase hex digit for a nibble: `0x30` is `'0'`, `0x61` is `'a'`.
pub open spec fn hex_digit(n: int) -> u8
    recommends
        0 <= n < 16,
{
    if n < 10 {
        (0x30 + n) as u8
    } else {
        (0x57 + n) as u8
    }
}

pub open spec fn is_hex_digit(b: u8) -> bool {
    (0x30 <= b && b <= 0x39) || (0x61 <= b && b <= 0x66)
}

/// The nibble a hex digit stands for.
pub open spec fn hex_val(b: u8) -> int
    recommends
        is_hex_digit(b),
{
    if b <= 0x39 {
        b - 0x30
    } else {
        b - 0x57
    }
}

/// Lowercase hex encoding of a byte string: two digits per byte, high
/// nibble first.
pub open spec fn hex_of(s: Seq<u8>) -> Seq<u8>
    decreases s.len(),
{
    if s.len() == 0 {
        Seq::empty()
    } else {
        seq![hex_digit(s[0] as int / 16), hex_digit(s[0] as int % 16)] + hex_of(s.skip(1))
    }
}

pub open spec fn all_hex(s: Seq<u8>) -> bool {
    forall|i: int| 0 <= i < s.len() ==> is_hex_digit(s[i])
}

pub proof fn lemma_hex_of_len(s: Seq<u8>)
    ensures
        hex_of(s).len() == 2 * s.len(),
    decreases s.len(),
{
    if s.len() > 0 {
        lemma_hex_of_len(s.skip(1));
    }
}

pub proof fn lemma_hex_of_all_hex(s: Seq<u8>)
    ensures
        all_hex(hex_of(s)),
    decreases s.len(),
{
    if s.len() > 0 {
        lemma_hex_of_all_hex(s.skip(1));
    }
}

pub proof fn lemma_hex_of_push(s: Seq<u8>, x: u8)
    ensures
        hex_of(s.push(x)) == hex_of(s) + seq![
            hex_digit(x as int / 16),
            hex_digit(x as int % 16),
        ],
    decreases s.len(),
{
    if s.len() == 0 {
        assert(s.push(x).skip(1) =~= Seq::<u8>::empty());
        assert(hex_of(Seq::<u8>::empty()) == Seq::<u8>::empty());
        assert(hex_of(s) == Seq::<u8>::empty());
        assert(hex_of(s.push(x)) =~= hex_of(s) + seq![
            hex_digit(x as int / 16),
            hex_digit(x as int % 16),
        ]);
    } else {
        assert(s.push(x).skip(1) =~= s.skip(1).push(x));
        lemma_hex_of_push(s.skip(1), x);
        assert(hex_of(s.push(x)) =~= hex_of(s) + seq![
            hex_digit(x as int / 16),
            hex_digit(x as int % 16),
        ]);
    }
}

/// Hex encoding is injective: equal encodings come from equal byte strings.
pub proof fn lemma_hex_of_injective(a: Seq<u8>, b: Seq<u8>)
    requires
        hex_of(a) == hex_of(b),
    ensures
        a == b,
    decreases a.len(),
{
    lemma_hex_of_len(a);
    lemma_hex_of_len(b);
    if a.len() == 0 {
        assert(a =~= b);
    } else {
        let x = a[0] as int;
        let y = b[0] as int;
        assert(hex_of(a) == seq![hex_digit(x / 16), hex_digit(x % 16)] + hex_of(a.skip(1)));
        assert(hex_of(b) == seq![hex_digit(y / 16), hex_digit(y % 16)] + hex_of(b.skip(1)));
        assert(hex_of(a)[0] == hex_digit(x / 16));
        assert(hex_of(a)[1] == hex_digit(x % 16));
        assert(hex_of(b)[0] == hex_digit(y / 16));
        assert(hex_of(b)[1] == hex_digit(y % 16));
        lemma_nibbles(x);
        lemma_nibbles(y);
        assert(x / 16 == y / 16 && x % 16 == y % 16);
        assert(a[0] == b[0]);
        assert(hex_of(a).skip(2) =~= hex_of(a.skip(1)));
        assert(hex_of(b).skip(2) =~= hex_of(b.skip(1)));
        lemma_hex_of_injective(a.skip(1), b.skip(1));
        assert forall|i: int| 0 <= i < a.len() implies a[i] == b[i] by {
            if i > 0 {
                assert(a[i] == a.skip(1)[i - 1]);
                assert(b[i] == b.skip(1)[i - 1]);
            }
        }
        assert(a =~= b);
    }
}

/// A byte splits into two nibbles, each below 16, that rebuild it.
proof fn lemma_nibbles(x: int)
    requires
        0 <= x < 256,
    ensures
        0 <= x / 16 < 16,
        0 <= x % 16 < 16,
        x == (x / 16) * 16 + x % 16,
{
    vstd::arithmetic::div_mod::lemma_fundamental_div_mod(x, 16);
}

fn hex_digit_byte(n: u8) -> (r: u8)
    requires
        n < 16,
    ensures
        r == hex_digit(n as int),
{
    if n < 10 {
        0x30 + n
    } else {
        0x57 + n
    }
}

/// Encode a byte string as lowercase hex.
pub fn hex_encode(bytes: &[u8]) -> (r: Vec<u8>)
    ensures
        r@ == hex_of(bytes@),
{
    let mut out: Vec<u8> = Vec::new();
    let mut i: usize = 0;
    while i < bytes.len()
        invariant
            i <= bytes@.len(),
            out@ == hex_of(bytes@.take(i as int)),
        decreases bytes@.len() - i,
    {
        let b = bytes[i];
        out.push(hex_digit_byte(b / 16));
        out.push(hex_digit_byte(b % 16));
        proof {
            lemma_hex_of_push(bytes@.take(i as int), b);
            assert(bytes@.take(i + 1) =~= bytes@.take(i as int).push(b));
        }
        i += 1;
    }
    proof {
        assert(bytes@.take(bytes@.len() as int) =~= bytes@);
    }
    out
}

fn is_hex_digit_byte(b: u8) -> (r: bool)
    ensures
        r == is_hex_digit(b),
{
    (0x30 <= b && b <= 0x39) || (0x61 <= b && b <= 0x66)
}

fn hex_val_byte(b: u8) -> (r: u8)
    requires
        is_hex_digit(b),
    ensures
        r as int == hex_val(b),
        r < 16,
{
    if b <= 0x39 {
        b - 0x30
    } else {
        b - 0x57
    }
}

/// Decode a lowercase hex string back into bytes. Returns `None` exactly on
/// the inputs that are the hex encoding of no byte string.
pub fn hex_decode(s: &[u8]) -> (r: Option<Vec<u8>>)
    ensures
        match r {
            Some(b) => s@ == hex_of(b@),
            None => forall|b: Seq<u8>| hex_of(b) != s@,
        },
{
    if s.len() % 2 != 0 {
        proof {
            assert forall|b: Seq<u8>| hex_of(b) != s@ by {
                lemma_hex_of_len(b);
            }
        }
        return None;
    }
    let mut out: Vec<u8> = Vec::new();
    let mut i: usize = 0;
    while i + 1 < s.len()
        invariant
            i % 2 == 0,
            i <= s@.len(),
            s@.len() % 2 == 0,
            hex_of(out@) == s@.take(i as int),
        decreases s@.len() - i,
    {
        let hi = s[i];
        let lo = s[i + 1];
        if !is_hex_digit_byte(hi) || !is_hex_digit_byte(lo) {
            proof {
                assert forall|b: Seq<u8>| hex_of(b) != s@ by {
                    if hex_of(b) == s@ {
                        lemma_hex_of_all_hex(b);
                        assert(is_hex_digit(s@[i as int]));
                        assert(is_hex_digit(s@[i as int + 1]));
                    }
                }
            }
            return None;
        }
        let byte = hex_val_byte(hi) * 16 + hex_val_byte(lo);
        proof {
            lemma_hex_of_push(out@, byte);
            assert(hex_digit(byte as int / 16) == hi);
            assert(hex_digit(byte as int % 16) == lo);
            assert(hex_of(out@.push(byte)) =~= s@.take(i as int + 2));
        }
        out.push(byte);
        i += 2;
    }
    proof {
        assert(i == s@.len());
        assert(s@.take(i as int) =~= s@);
    }
    Some(out)
}

// --- decimal ---------------------------------------------------------------

pub open spec fn is_dec_digit(b: u8) -> bool {
    0x30 <= b && b <= 0x39
}

pub open spec fn all_dec(s: Seq<u8>) -> bool {
    forall|i: int| 0 <= i < s.len() ==> is_dec_digit(s[i])
}

/// Canonical decimal encoding of a natural number, most significant digit
/// first, without leading zeros (`0` encodes as the single digit `0x30`).
pub open spec fn dec_of(n: nat) -> Seq<u8>
    decreases n,
{
    if n < 10 {
        seq![(0x30 + n) as u8]
    } else {
        dec_of(n / 10).push((0x30 + n % 10) as u8)
    }
}

/// The number a digit string stands for.
pub open spec fn dec_int(s: Seq<u8>) -> int
    recommends
        all_dec(s),
    decreases s.len(),
{
    if s.len() == 0 {
        0
    } else {
        dec_int(s.drop_last()) * 10 + (s.last() - 0x30)
    }
}

/// A digit string is a canonical encoding when it is nonempty, all digits,
/// and free of leading zeros.
pub open spec fn canon_dec(s: Seq<u8>) -> bool {
    all_dec(s) && s.len() > 0 && (s.len() == 1 || s[0] != 0x30)
}

/// What a decimal digit string denotes as a `u64`, if anything.
pub open spec fn dec_val(s: Seq<u8>) -> Option<u64> {
    if canon_dec(s) && dec_int(s) <= u64::MAX {
        Some(dec_int(s) as u64)
    } else {
        None
    }
}

/// The canonical encoding really is canonical and denotes its number.
pub proof fn lemma_dec_of_canon(n: nat)
    ensures
        canon_dec(dec_of(n)),
        dec_int(dec_of(n)) == n,
        n >= 1 ==> dec_of(n)[0] != 0x30,
    decreases n,
{
    if n < 10 {
        let s = dec_of(n);
        assert(s =~= seq![(0x30 + n) as u8]);
        assert(s.drop_last() =~= Seq::<u8>::empty());
        assert(dec_int(Seq::<u8>::empty()) == 0);
        assert(dec_int(s) == dec_int(s.drop_last()) * 10 + (s.last() - 0x30));
    } else {
        lemma_dec_of_canon(n / 10);
        let s = dec_of(n);
        assert(s == dec_of(n / 10).push((0x30 + n % 10) as u8));
        assert(s.drop_last() =~= dec_of(n / 10));
        assert(dec_int(s) == dec_int(dec_of(n / 10)) * 10 + n % 10);
        assert(dec_int(s) == (n / 10) * 10 + n % 10);
        assert((n / 10) * 10 + n % 10 == n) by {
            vstd::arithmetic::div_mod::lemma_fundamental_div_mod(n as int, 10);
        }
        assert(n / 10 >= 1);
        assert(s[0] == dec_of(n / 10)[0]);
        assert forall|i: int| 0 <= i < s.len() implies is_dec_digit(s[i]) by {
            if i < s.len() - 1 {
                assert(s[i] == dec_of(n / 10)[i]);
            }
        }
    }
}

/// Two numbers with the same canonical encoding are equal.
pub proof fn lemma_dec_of_injective(m: nat, n: nat)
    requires
        dec_of(m) == dec_of(n),
    ensures
        m == n,
{
    lemma_dec_of_canon(m);
    lemma_dec_of_canon(n);
}

/// Every canonical digit string is the encoding of the number it denotes.
pub proof fn lemma_canon_is_dec_of(s: Seq<u8>)
    requires
        canon_dec(s),
    ensures
        dec_int(s) >= 0,
        dec_of(dec_int(s) as nat) == s,
    decreases s.len(),
{
    if s.len() == 1 {
        assert(s.drop_last() =~= Seq::<u8>::empty());
        assert(dec_int(Seq::<u8>::empty()) == 0);
        assert(dec_int(s) == dec_int(s.drop_last()) * 10 + (s.last() - 0x30));
        assert(dec_of((s[0] - 0x30) as nat) =~= s);
    } else {
        let t = s.drop_last();
        assert(canon_dec(t)) by {
            assert(forall|i: int| 0 <= i < t.len() ==> t[i] == s[i]);
        }
        lemma_canon_is_dec_of(t);
        let m = dec_int(t);
        let d = s.last() - 0x30;
        let n = m * 10 + d;
        assert(m >= 1) by {
            if m == 0 {
                assert(dec_of(0nat) =~= seq![0x30u8]);
                assert(t.len() == 1 && t[0] == 0x30);
                assert(s[0] == 0x30);
            }
        }
        assert(n >= 10);
        assert(n / 10 == m && n % 10 == d) by {
            vstd::arithmetic::div_mod::lemma_fundamental_div_mod_converse(n, 10, m, d);
        }
        assert(dec_of(n as nat) == dec_of((n / 10) as nat).push((0x30 + n % 10) as u8));
        assert(dec_of(n as nat) =~= s);
    }
}

pub proof fn lemma_dec_int_nonneg(s: Seq<u8>)
    requires
        all_dec(s),
    ensures
        dec_int(s) >= 0,
    decreases s.len(),
{
    if s.len() > 0 {
        assert(all_dec(s.drop_last())) by {
            assert(forall|i: int|
                0 <= i < s.len() - 1 ==> s.drop_last()[i] == s[i]);
        }
        lemma_dec_int_nonneg(s.drop_last());
    }
}

/// Encode a number in canonical decimal.
pub fn dec_encode(n: u64) -> (r: Vec<u8>)
    ensures
        r@ == dec_of(n as nat),
    decreases n,
{
    if n < 10 {
        let mut out: Vec<u8> = Vec::new();
        out.push(0x30 + n as u8);
        proof {
            assert(out@ =~= dec_of(n as nat));
        }
        out
    } else {
        let mut out = dec_encode(n / 10);
        out.push(0x30 + (n % 10) as u8);
        out
    }
}

/// Parse a canonical decimal digit string into a `u64`. Returns `None`
/// exactly on the strings that denote no `u64`: empty, a stray character,
/// a leading zero, or a value past `u64::MAX`.
pub fn dec_parse(s: &[u8]) -> (r: Option<u64>)
    ensures
        r == dec_val(s@),
{
    if s.len() == 0 {
        return None;
    }
    if s.len() > 1 && s[0] == 0x30 {
        return None;
    }
    let mut acc: u64 = 0;
    let mut i: usize = 0;
    while i < s.len()
        invariant
            i <= s@.len(),
            s@.len() > 0,
            s@.len() > 1 ==> s@[0] != 0x30,
            all_dec(s@.take(i as int)),
            acc as int == dec_int(s@.take(i as int)),
        decreases s@.len() - i,
    {
        let b = s[i];
        if !(0x30 <= b && b <= 0x39) {
            proof {
                lemma_dec_none_when_not_canon(s@, i as int);
            }
            return None;
        }
        let d = b - 0x30;
        let shifted = match acc.checked_mul(10) {
            Some(v) => v,
            None => {
                proof {
                    lemma_dec_none_when_overflow(s@, i as int, acc as int, d as int);
                }
                return None;
            },
        };
        let next = match shifted.checked_add(d as u64) {
            Some(v) => v,
            None => {
                proof {
                    lemma_dec_none_when_overflow(s@, i as int, acc as int, d as int);
                }
                return None;
            },
        };
        proof {
            assert(s@.take(i as int + 1).drop_last() =~= s@.take(i as int));
        }
        acc = next;
        i += 1;
    }
    proof {
        assert(s@.take(i as int) =~= s@);
    }
    Some(acc)
}

/// If position `i` of `s` is no digit, `s` denotes nothing.
proof fn lemma_dec_none_when_not_canon(s: Seq<u8>, i: int)
    requires
        0 <= i < s.len(),
        !is_dec_digit(s[i]),
    ensures
        dec_val(s) is None,
{
}

/// If the prefix before `i` already denotes `acc` and `acc * 10 + d`
/// overflows a `u64`, `s` denotes nothing.
proof fn lemma_dec_none_when_overflow(s: Seq<u8>, i: int, acc: int, d: int)
    requires
        0 <= i < s.len(),
        all_dec(s.take(i)),
        is_dec_digit(s[i]),
        d == s[i] - 0x30,
        acc == dec_int(s.take(i)),
        acc * 10 + d > u64::MAX,
    ensures
        dec_val(s) is None,
{
    if canon_dec(s) {
        assert(s.take(i + 1).drop_last() =~= s.take(i));
        assert(all_dec(s.take(i + 1)));
        assert(dec_int(s.take(i + 1)) == acc * 10 + d);
        lemma_dec_take_monotone(s, i + 1);
    }
}

/// `dec_int` grows along prefixes of an all-digit string.
proof fn lemma_dec_take_monotone(s: Seq<u8>, i: int)
    requires
        all_dec(s),
        0 <= i <= s.len(),
    ensures
        dec_int(s) >= dec_int(s.take(i)),
    decreases s.len() - i,
{
    if i == s.len() {
        assert(s.take(i) =~= s);
    } else {
        lemma_dec_take_monotone(s, i + 1);
        assert(s.take(i + 1).drop_last() =~= s.take(i));
        assert(dec_int(s.take(i + 1)) == dec_int(s.take(i)) * 10 + (s[i] - 0x30));
        lemma_dec_int_nonneg(s.take(i));
    }
}

} // verus!
