//! Addresses as plain values, and the exact text forms the library
//! exchanges with its surroundings: canonical decimal numbers, dotted-quad
//! IPv4 addresses, and the device's status-endpoint URL.
//!
//! All text is handled as bytes; the I/O layer converts to and from
//! `String` at the boundary.

use vstd::prelude::*;

verus! {

/// An IPv4 address and port, as plain values. Produced by discovery or
/// supplied directly; immutable once a controller is created.
#[derive(Clone, Copy, Debug, PartialEq, Eq, Structural)]
pub struct DeviceAddress {
    pub oct0: u8,
    pub oct1: u8,
    pub oct2: u8,
    pub oct3: u8,
    pub port: u16,
}

/// Whether a byte is an ASCII decimal digit.
pub open spec fn is_digit_byte(b: u8) -> bool {
    48 <= b <= 57
}

/// Canonical decimal rendering of a number: most significant digit first,
/// no leading zeros (zero itself is the single digit `0`).
pub open spec fn dec_digits(n: nat) -> Seq<u8>
    decreases n,
{
    if n < 10 {
        seq![(48 + n) as u8]
    } else {
        dec_digits(n / 10).push((48 + n % 10) as u8)
    }
}

/// Canonical dotted-quad text of an IPv4 address.
pub open spec fn ipv4_text(o0: u8, o1: u8, o2: u8, o3: u8) -> Seq<u8> {
    dec_digits(o0 as nat) + seq![46u8] + dec_digits(o1 as nat) + seq![46u8] + dec_digits(
        o2 as nat,
    ) + seq![46u8] + dec_digits(o3 as nat)
}

/// Append the canonical decimal rendering of `n`.
pub fn push_dec(out: &mut Vec<u8>, n: u32)
    ensures
        final(out)@ == old(out)@ + dec_digits(n as nat),
    decreases n,
{
    if n < 10 {
        out.push(48 + n as u8);
        proof {
            assert(out@ =~= old(out)@ + dec_digits(n as nat));
        }
    } else {
        push_dec(out, n / 10);
        out.push(48 + (n % 10) as u8);
        proof {
            assert(out@ =~= old(out)@ + dec_digits(n as nat));
        }
    }
}

/// Basic shape of a canonical decimal rendering: at least one byte, every
/// byte a digit, no leading zero for a nonzero number, and a length fixed
/// by the number's magnitude.
pub proof fn lemma_dec_digits_basic(n: nat)
    ensures
        dec_digits(n).len() >= 1,
        forall|i: int| 0 <= i < dec_digits(n).len() ==> is_digit_byte(#[trigger] dec_digits(n)[i]),
        n >= 1 ==> dec_digits(n)[0] != 48,
        n < 10 ==> dec_digits(n).len() == 1,
        10 <= n < 100 ==> dec_digits(n).len() == 2,
        100 <= n < 1000 ==> dec_digits(n).len() == 3,
    decreases n,
{
    if n < 10 {
        assert(dec_digits(n) =~= seq![(48 + n) as u8]);
    } else {
        lemma_dec_digits_basic(n / 10);
        assert(dec_digits(n) == dec_digits(n / 10).push((48 + n % 10) as u8));
        assert(is_digit_byte((48 + n % 10) as u8));
        assert(dec_digits(n)[0] == dec_digits(n / 10)[0]);
    }
}

/// The digit bytes of a canonical rendering, written out for numbers of up
/// to three digits.
pub proof fn lemma_dec_digits_explicit(n: nat)
    requires
        n < 1000,
    ensures
        n < 10 ==> dec_digits(n) == seq![(48 + n) as u8],
        10 <= n < 100 ==> dec_digits(n) == seq![(48 + n / 10) as u8, (48 + n % 10) as u8],
        100 <= n ==> dec_digits(n) == seq![
            (48 + n / 100) as u8,
            (48 + (n / 10) % 10) as u8,
            (48 + n % 10) as u8,
        ],
{
    if n < 10 {
    } else if n < 100 {
        assert(dec_digits(n / 10) == seq![(48 + n / 10) as u8]);
        assert(dec_digits(n) =~= seq![(48 + n / 10) as u8, (48 + n % 10) as u8]);
    } else {
        let m = n / 10;
        assert(10 <= m < 100);
        assert(dec_digits(m / 10) == seq![(48 + m / 10) as u8]);
        assert(dec_digits(m) =~= seq![(48 + m / 10) as u8, (48 + m % 10) as u8]);
        vstd::arithmetic::div_mod::lemma_div_denominator(n as int, 10, 10);
        assert(m / 10 == n / 100);
        assert(dec_digits(n) =~= seq![
            (48 + n / 100) as u8,
            (48 + (n / 10) % 10) as u8,
            (48 + n % 10) as u8,
        ]);
    }
}

/// A number of up to three digits is recovered from its canonical digits.
proof fn lemma_three_digit_value(n: nat)
    requires
        n < 1000,
    ensures
        10 <= n < 100 ==> n == 10 * (n / 10) + n % 10,
        100 <= n ==> n == 100 * (n / 100) + 10 * ((n / 10) % 10) + n % 10,
{
    vstd::arithmetic::div_mod::lemma_fundamental_div_mod(n as int, 10);
    if n >= 100 {
        vstd::arithmetic::div_mod::lemma_fundamental_div_mod(n as int / 10, 10);
        vstd::arithmetic::div_mod::lemma_div_denominator(n as int, 10, 10);
    }
}

/// Canonical decimal renderings are unique: equal digit strings mean equal
/// numbers.
pub proof fn lemma_dec_digits_injective(n1: nat, n2: nat)
    requires
        n1 < 1000,
        n2 < 1000,
        dec_digits(n1) == dec_digits(n2),
    ensures
        n1 == n2,
{
    lemma_dec_digits_basic(n1);
    lemma_dec_digits_basic(n2);
    lemma_dec_digits_explicit(n1);
    lemma_dec_digits_explicit(n2);
    lemma_three_digit_value(n1);
    lemma_three_digit_value(n2);
    if n1 < 10 {
        assert((48 + n1) as u8 == (48 + n2) as u8);
    } else if n1 < 100 {
        assert((48 + n1 / 10) as u8 == (48 + n2 / 10) as u8);
        assert((48 + n1 % 10) as u8 == (48 + n2 % 10) as u8);
    } else {
        assert((48 + n1 / 100) as u8 == (48 + n2 / 100) as u8);
        assert((48 + (n1 / 10) % 10) as u8 == (48 + (n2 / 10) % 10) as u8);
        assert((48 + n1 % 10) as u8 == (48 + n2 % 10) as u8);
    }
}

/// A canonical octet stands at position `start` of `s`: the canonical
/// digits of `v` appear there, and the octet is maximal — what follows, if
/// anything, is not a digit.
pub open spec fn octet_at(s: Seq<u8>, start: int, v: u8) -> bool {
    &&& 0 <= start
    &&& start + dec_digits(v as nat).len() <= s.len()
    &&& s.subrange(start, start + dec_digits(v as nat).len() as int) == dec_digits(v as nat)
    &&& (start + dec_digits(v as nat).len() == s.len() || !is_digit_byte(
        s[start + dec_digits(v as nat).len()],
    ))
}

/// At one position of one string there is at most one canonical octet.
pub proof fn lemma_octet_at_unique(s: Seq<u8>, start: int, v1: u8, v2: u8)
    requires
        octet_at(s, start, v1),
        octet_at(s, start, v2),
    ensures
        v1 == v2,
{
    lemma_dec_digits_basic(v1 as nat);
    lemma_dec_digits_basic(v2 as nat);
    let l1 = dec_digits(v1 as nat).len();
    let l2 = dec_digits(v2 as nat).len();
    if l1 < l2 {
        assert(is_digit_byte(dec_digits(v2 as nat)[l1 as int]));
        assert(s[start + l1] == dec_digits(v2 as nat)[l1 as int]) by {
            assert(s.subrange(start, start + l2 as int)[l1 as int] == s[start + l1]);
        }
        assert(false);
    } else if l2 < l1 {
        assert(is_digit_byte(dec_digits(v1 as nat)[l2 as int]));
        assert(s[start + l2] == dec_digits(v1 as nat)[l2 as int]) by {
            assert(s.subrange(start, start + l1 as int)[l2 as int] == s[start + l2]);
        }
        assert(false);
    } else {
        assert(dec_digits(v1 as nat) == dec_digits(v2 as nat));
        lemma_dec_digits_injective(v1 as nat, v2 as nat);
    }
}

/// Parse the canonical octet standing at position `start`: its value and
/// the position just past its digits. `None` exactly when no canonical
/// octet stands there.
fn parse_octet(text: &Vec<u8>, start: usize) -> (r: Option<(u8, usize)>)
    requires
        start <= text.len(),
    ensures
        r matches Some(p) ==> octet_at(text@, start as int, p.0) && p.1 == start + dec_digits(
            p.0 as nat,
        ).len(),
        r is None ==> forall|v: u8| !octet_at(text@, start as int, v),
{
    let n = text.len();
    if start == n || text[start] < 48 || text[start] > 57 {
        proof {
            assert forall|v: u8| !octet_at(text@, start as int, v) by {
                if octet_at(text@, start as int, v) {
                    lemma_dec_digits_basic(v as nat);
                    let l = dec_digits(v as nat).len() as int;
                    assert(text@[start as int] == dec_digits(v as nat)[0]) by {
                        assert(text@.subrange(start as int, start + l)[0] == text@[start as int]);
                    }
                    assert(is_digit_byte(text@[start as int]));
                    assert(false);
                }
            }
        }
        return None;
    }
    let b0 = text[start];
    if b0 == 48 {
        // an octet starting with `0` is `0` itself; a digit after it makes
        // the text non-canonical
        if start + 1 < n && 48 <= text[start + 1] && text[start + 1] <= 57 {
            proof {
                assert forall|v: u8| !octet_at(text@, start as int, v) by {
                    if octet_at(text@, start as int, v) {
                        lemma_dec_digits_basic(v as nat);
                        let l = dec_digits(v as nat).len() as int;
                        if v == 0 {
                            assert(l == 1);
                            assert(is_digit_byte(text@[start + 1]));
                            assert(false);
                        } else {
                            let at_start = text@[start as int];
                            assert(at_start == dec_digits(v as nat)[0]) by {
                                assert(text@.subrange(start as int, start + l)[0] == at_start);
                            }
                            assert(false);
                        }
                    }
                }
            }
            return None;
        }
        proof {
            assert(dec_digits(0nat) == seq![48u8]);
            assert(text@.subrange(start as int, start as int + 1) =~= seq![48u8]);
        }
        return Some((0, start + 1));
    }
    // first digit 1..9; scan up to two more digits
    let d0 = b0 - 48;
    let mut k: usize = 1;
    if start + 1 < n && 48 <= text[start + 1] && text[start + 1] <= 57 {
        k = 2;
        if start + 2 < n && 48 <= text[start + 2] && text[start + 2] <= 57 {
            k = 3;
            if start + 3 < n && 48 <= text[start + 3] && text[start + 3] <= 57 {
                // four digits in a row: no canonical octet is maximal here
                proof {
                    assert forall|v: u8| !octet_at(text@, start as int, v) by {
                        if octet_at(text@, start as int, v) {
                            lemma_dec_digits_basic(v as nat);
                            let l = dec_digits(v as nat).len() as int;
                            assert(1 <= l <= 3);
                            assert(start + l < n);
                            assert(is_digit_byte(text@[start + l]));
                            assert(false);
                        }
                    }
                }
                return None;
            }
        }
    }
    let v: u32 = if k == 1 {
        d0 as u32
    } else if k == 2 {
        10 * (d0 as u32) + (text[start + 1] - 48) as u32
    } else {
        100 * (d0 as u32) + 10 * ((text[start + 1] - 48) as u32) + (text[start + 2] - 48) as u32
    };
    proof {
        lemma_dec_digits_explicit(v as nat);
        if k == 1 {
            assert(v < 10);
            assert(text@.subrange(start as int, start as int + 1) =~= seq![(48 + v) as u8]);
        } else if k == 2 {
            let d1 = (text@[start as int + 1] - 48) as u32;
            assert(10 <= v < 100);
            vstd::arithmetic::div_mod::lemma_fundamental_div_mod_converse_div(
                v as int, 10, d0 as int, d1 as int,
            );
            vstd::arithmetic::div_mod::lemma_fundamental_div_mod_converse_mod(
                v as int, 10, d0 as int, d1 as int,
            );
            assert(text@.subrange(start as int, start as int + 2) =~= seq![
                (48 + v / 10) as u8,
                (48 + v % 10) as u8,
            ]);
        } else {
            let d1 = (text@[start as int + 1] - 48) as u32;
            let d2 = (text@[start as int + 2] - 48) as u32;
            assert(100 <= v < 1000);
            vstd::arithmetic::div_mod::lemma_fundamental_div_mod_converse_div(
                v as int, 100, d0 as int, (10 * d1 + d2) as int,
            );
            vstd::arithmetic::div_mod::lemma_fundamental_div_mod_converse_div(
                v as int, 10, (10 * d0 + d1) as int, d2 as int,
            );
            vstd::arithmetic::div_mod::lemma_fundamental_div_mod_converse_mod(
                v as int, 10, (10 * d0 + d1) as int, d2 as int,
            );
            vstd::arithmetic::div_mod::lemma_fundamental_div_mod_converse_mod(
                (10 * d0 + d1) as int, 10, d0 as int, d1 as int,
            );
            assert((v / 10) % 10 == d1);
            assert(text@.subrange(start as int, start as int + 3) =~= seq![
                (48 + v / 100) as u8,
                (48 + (v / 10) % 10) as u8,
                (48 + v % 10) as u8,
            ]);
        }
    }
    if v > 255 {
        proof {
            assert(k == 3);
            let s0 = (text@[start as int] - 48) as int;
            let s1 = (text@[start as int + 1] - 48) as int;
            let s2 = (text@[start as int + 2] - 48) as int;
            assert forall|w: u8| !octet_at(text@, start as int, w) by {
                if octet_at(text@, start as int, w) {
                    lemma_dec_digits_basic(w as nat);
                    let l = dec_digits(w as nat).len() as int;
                    assert(1 <= l <= 3);
                    if l < 3 {
                        assert(start + l < n);
                        assert(is_digit_byte(text@[start + l]));
                        assert(false);
                    } else {
                        lemma_dec_digits_explicit(w as nat);
                        lemma_three_digit_value(w as nat);
                        assert(dec_digits(w as nat) == text@.subrange(
                            start as int,
                            start as int + 3,
                        ));
                        assert(dec_digits(w as nat)[0] == text@[start as int]);
                        assert(dec_digits(w as nat)[1] == text@[start as int + 1]);
                        assert(dec_digits(w as nat)[2] == text@[start as int + 2]);
                        assert(w as nat / 100 == s0);
                        assert((w as nat / 10) % 10 == s1);
                        assert(w as nat % 10 == s2);
                        assert(w == 100 * s0 + 10 * s1 + s2);
                        assert(w as int == v as int);
                        assert(false);
                    }
                }
            }
        }
        return None;
    }
    Some((v as u8, start + k))
}

/// Anatomy of a canonical dotted quad: each octet is a canonical, maximal
/// run of digits at its position, the three separators are dots, and the
/// text ends with the last octet.
proof fn lemma_ipv4_structure(s: Seq<u8>, o0: u8, o1: u8, o2: u8, o3: u8)
    requires
        s == ipv4_text(o0, o1, o2, o3),
    ensures
        s.len() == dec_digits(o0 as nat).len() + dec_digits(o1 as nat).len() + dec_digits(
            o2 as nat,
        ).len() + dec_digits(o3 as nat).len() + 3,
        octet_at(s, 0, o0),
        s[dec_digits(o0 as nat).len() as int] == 46,
        octet_at(s, dec_digits(o0 as nat).len() as int + 1, o1),
        s[dec_digits(o0 as nat).len() as int + dec_digits(o1 as nat).len() as int + 1] == 46,
        octet_at(s, dec_digits(o0 as nat).len() as int + dec_digits(o1 as nat).len() as int + 2, o2),
        s[dec_digits(o0 as nat).len() as int + dec_digits(o1 as nat).len() as int + dec_digits(
            o2 as nat,
        ).len() as int + 2] == 46,
        octet_at(
            s,
            dec_digits(o0 as nat).len() as int + dec_digits(o1 as nat).len() as int + dec_digits(
                o2 as nat,
            ).len() as int + 3,
            o3,
        ),
{
    lemma_dec_digits_basic(o0 as nat);
    lemma_dec_digits_basic(o1 as nat);
    lemma_dec_digits_basic(o2 as nat);
    lemma_dec_digits_basic(o3 as nat);
    let l0 = dec_digits(o0 as nat).len() as int;
    let l1 = dec_digits(o1 as nat).len() as int;
    let l2 = dec_digits(o2 as nat).len() as int;
    let l3 = dec_digits(o3 as nat).len() as int;
    assert(s.subrange(0, l0) =~= dec_digits(o0 as nat));
    assert(s.subrange(l0 + 1, l0 + 1 + l1) =~= dec_digits(o1 as nat));
    assert(s.subrange(l0 + l1 + 2, l0 + l1 + 2 + l2) =~= dec_digits(o2 as nat));
    assert(s.subrange(l0 + l1 + l2 + 3, l0 + l1 + l2 + 3 + l3) =~= dec_digits(o3 as nat));
}

/// A dotted quad denotes its four octets unambiguously: equal canonical
/// texts mean equal addresses.
pub proof fn lemma_ipv4_text_injective(
    a0: u8,
    a1: u8,
    a2: u8,
    a3: u8,
    b0: u8,
    b1: u8,
    b2: u8,
    b3: u8,
)
    requires
        ipv4_text(a0, a1, a2, a3) == ipv4_text(b0, b1, b2, b3),
    ensures
        a0 == b0 && a1 == b1 && a2 == b2 && a3 == b3,
{
    let s = ipv4_text(a0, a1, a2, a3);
    lemma_ipv4_structure(s, a0, a1, a2, a3);
    lemma_ipv4_structure(s, b0, b1, b2, b3);
    lemma_octet_at_unique(s, 0, a0, b0);
    let l0 = dec_digits(a0 as nat).len() as int;
    lemma_octet_at_unique(s, l0 + 1, a1, b1);
    let l1 = dec_digits(a1 as nat).len() as int;
    lemma_octet_at_unique(s, l0 + l1 + 2, a2, b2);
    let l2 = dec_digits(a2 as nat).len() as int;
    lemma_octet_at_unique(s, l0 + l1 + l2 + 3, a3, b3);
}

/// Parse a dotted-quad IPv4 address. Returns the four octets exactly when
/// the whole text is the canonical form `a.b.c.d` (each octet 0-255 in
/// decimal, no leading zeros); returns `None` for every other text.
pub fn parse_ipv4(text: &Vec<u8>) -> (r: Option<(u8, u8, u8, u8)>)
    ensures
        r matches Some(o) ==> text@ == ipv4_text(o.0, o.1, o.2, o.3),
        r is None ==> forall|o0: u8, o1: u8, o2: u8, o3: u8|
            text@ != ipv4_text(o0, o1, o2, o3),
{
    let n = text.len();
    let (v0, e0) = match parse_octet(text, 0) {
        Some(p) => p,
        None => {
            proof {
                assert forall|o0: u8, o1: u8, o2: u8, o3: u8|
                    text@ != ipv4_text(o0, o1, o2, o3) by {
                    if text@ == ipv4_text(o0, o1, o2, o3) {
                        lemma_ipv4_structure(text@, o0, o1, o2, o3);
                        assert(false);
                    }
                }
            }
            return None;
        },
    };
    if e0 == n || text[e0] != 46 {
        proof {
            assert forall|o0: u8, o1: u8, o2: u8, o3: u8|
                text@ != ipv4_text(o0, o1, o2, o3) by {
                if text@ == ipv4_text(o0, o1, o2, o3) {
                    lemma_ipv4_structure(text@, o0, o1, o2, o3);
                    lemma_octet_at_unique(text@, 0, v0, o0);
                    assert(false);
                }
            }
        }
        return None;
    }
    let (v1, e1) = match parse_octet(text, e0 + 1) {
        Some(p) => p,
        None => {
            proof {
                assert forall|o0: u8, o1: u8, o2: u8, o3: u8|
                    text@ != ipv4_text(o0, o1, o2, o3) by {
                    if text@ == ipv4_text(o0, o1, o2, o3) {
                        lemma_ipv4_structure(text@, o0, o1, o2, o3);
                        lemma_octet_at_unique(text@, 0, v0, o0);
                        assert(false);
                    }
                }
            }
            return None;
        },
    };
    if e1 == n || text[e1] != 46 {
        proof {
            assert forall|o0: u8, o1: u8, o2: u8, o3: u8|
                text@ != ipv4_text(o0, o1, o2, o3) by {
                if text@ == ipv4_text(o0, o1, o2, o3) {
                    lemma_ipv4_structure(text@, o0, o1, o2, o3);
                    lemma_octet_at_unique(text@, 0, v0, o0);
                    lemma_octet_at_unique(text@, e0 as int + 1, v1, o1);
                    assert(false);
                }
            }
        }
        return None;
    }
    let (v2, e2) = match parse_octet(text, e1 + 1) {
        Some(p) => p,
        None => {
            proof {
                assert forall|o0: u8, o1: u8, o2: u8, o3: u8|
                    text@ != ipv4_text(o0, o1, o2, o3) by {
                    if text@ == ipv4_text(o0, o1, o2, o3) {
                        lemma_ipv4_structure(text@, o0, o1, o2, o3);
                        lemma_octet_at_unique(text@, 0, v0, o0);
                        lemma_octet_at_unique(text@, e0 as int + 1, v1, o1);
                        assert(false);
                    }
                }
            }
            return None;
        },
    };
    if e2 == n || text[e2] != 46 {
        proof {
            assert forall|o0: u8, o1: u8, o2: u8, o3: u8|
                text@ != ipv4_text(o0, o1, o2, o3) by {
                if text@ == ipv4_text(o0, o1, o2, o3) {
                    lemma_ipv4_structure(text@, o0, o1, o2, o3);
                    lemma_octet_at_unique(text@, 0, v0, o0);
                    lemma_octet_at_unique(text@, e0 as int + 1, v1, o1);
                    lemma_octet_at_unique(text@, e1 as int + 1, v2, o2);
                    assert(false);
                }
            }
        }
        return None;
    }
    let (v3, e3) = match parse_octet(text, e2 + 1) {
        Some(p) => p,
        None => {
            proof {
                assert forall|o0: u8, o1: u8, o2: u8, o3: u8|
                    text@ != ipv4_text(o0, o1, o2, o3) by {
                    if text@ == ipv4_text(o0, o1, o2, o3) {
                        lemma_ipv4_structure(text@, o0, o1, o2, o3);
                        lemma_octet_at_unique(text@, 0, v0, o0);
                        lemma_octet_at_unique(text@, e0 as int + 1, v1, o1);
                        lemma_octet_at_unique(text@, e1 as int + 1, v2, o2);
                        assert(false);
                    }
                }
            }
            return None;
        },
    };
    if e3 != n {
        proof {
            assert forall|o0: u8, o1: u8, o2: u8, o3: u8|
                text@ != ipv4_text(o0, o1, o2, o3) by {
                if text@ == ipv4_text(o0, o1, o2, o3) {
                    lemma_ipv4_structure(text@, o0, o1, o2, o3);
                    lemma_octet_at_unique(text@, 0, v0, o0);
                    lemma_octet_at_unique(text@, e0 as int + 1, v1, o1);
                    lemma_octet_at_unique(text@, e1 as int + 1, v2, o2);
                    lemma_octet_at_unique(text@, e2 as int + 1, v3, o3);
                    assert(false);
                }
            }
        }
        return None;
    }
    proof {
        let l0 = dec_digits(v0 as nat).len() as int;
        let l1 = dec_digits(v1 as nat).len() as int;
        let l2 = dec_digits(v2 as nat).len() as int;
        let l3 = dec_digits(v3 as nat).len() as int;
        assert forall|j: int| 0 <= j < l0 implies text@[j] == dec_digits(v0 as nat)[j] by {
            assert(text@.subrange(0, l0)[j] == text@[j]);
        }
        assert forall|j: int| 0 <= j < l1 implies text@[l0 + 1 + j] == dec_digits(v1 as nat)[j] by {
            assert(text@.subrange(l0 + 1, l0 + 1 + l1)[j] == text@[l0 + 1 + j]);
        }
        assert forall|j: int| 0 <= j < l2 implies text@[l0 + l1 + 2 + j] == dec_digits(
            v2 as nat,
        )[j] by {
            assert(text@.subrange(l0 + l1 + 2, l0 + l1 + 2 + l2)[j] == text@[l0 + l1 + 2 + j]);
        }
        assert forall|j: int| 0 <= j < l3 implies text@[l0 + l1 + l2 + 3 + j] == dec_digits(
            v3 as nat,
        )[j] by {
            assert(text@.subrange(l0 + l1 + l2 + 3, l0 + l1 + l2 + 3 + l3)[j] == text@[l0 + l1 + l2
                + 3 + j]);
        }
        assert(text@ =~= ipv4_text(v0, v1, v2, v3));
    }
    Some((v0, v1, v2, v3))
}

/// The scheme prefix of the device's HTTP endpoint: `http://`.
pub open spec fn http_prefix() -> Seq<u8> {
    seq!['h' as u8, 't' as u8, 't' as u8, 'p' as u8, ':' as u8, '/' as u8, '/' as u8]
}

/// The path of the device's status endpoint: `/elgato/lights`.
pub open spec fn lights_path() -> Seq<u8> {
    seq![
        '/' as u8,
        'e' as u8,
        'l' as u8,
        'g' as u8,
        'a' as u8,
        't' as u8,
        'o' as u8,
        '/' as u8,
        'l' as u8,
        'i' as u8,
        'g' as u8,
        'h' as u8,
        't' as u8,
        's' as u8,
    ]
}

/// Text of the device's status-endpoint URL:
/// `http://{dotted quad}:{port}/elgato/lights`.
pub open spec fn url_text(addr: DeviceAddress) -> Seq<u8> {
    http_prefix() + ipv4_text(addr.oct0, addr.oct1, addr.oct2, addr.oct3) + seq![':' as u8]
        + dec_digits(addr.port as nat) + lights_path()
}

/// The canonical dotted-quad text of an address's four octets.
pub fn ipv4_bytes(addr: &DeviceAddress) -> (r: Vec<u8>)
    ensures
        r@ == ipv4_text(addr.oct0, addr.oct1, addr.oct2, addr.oct3),
{
    let mut out: Vec<u8> = Vec::new();
    push_dec(&mut out, addr.oct0 as u32);
    out.push(46);
    push_dec(&mut out, addr.oct1 as u32);
    out.push(46);
    push_dec(&mut out, addr.oct2 as u32);
    out.push(46);
    push_dec(&mut out, addr.oct3 as u32);
    proof {
        assert(out@ =~= ipv4_text(addr.oct0, addr.oct1, addr.oct2, addr.oct3));
    }
    out
}

/// The full status-endpoint URL for a device address, as bytes.
pub fn device_url(addr: &DeviceAddress) -> (r: Vec<u8>)
    ensures
        r@ == url_text(*addr),
{
    let mut out: Vec<u8> = Vec::new();
    out.push('h' as u8);
    out.push('t' as u8);
    out.push('t' as u8);
    out.push('p' as u8);
    out.push(':' as u8);
    out.push('/' as u8);
    out.push('/' as u8);
    proof {
        assert(out@ =~= http_prefix());
    }
    let mut ip = ipv4_bytes(addr);
    out.append(&mut ip);
    out.push(':' as u8);
    proof {
        assert(out@ =~= http_prefix() + ipv4_text(addr.oct0, addr.oct1, addr.oct2, addr.oct3)
            + seq![':' as u8]);
    }
    push_dec(&mut out, addr.port as u32);
    let ghost before_path = out@;
    out.push('/' as u8);
    out.push('e' as u8);
    out.push('l' as u8);
    out.push('g' as u8);
    out.push('a' as u8);
    out.push('t' as u8);
    out.push('o' as u8);
    out.push('/' as u8);
    out.push('l' as u8);
    out.push('i' as u8);
    out.push('g' as u8);
    out.push('h' as u8);
    out.push('t' as u8);
    out.push('s' as u8);
    proof {
        assert(out@ =~= before_path + lights_path());
        assert(out@ =~= url_text(*addr));
    }
    out
}

} // verus!
