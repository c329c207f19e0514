//! IPv4 addresses in dotted-decimal text: four octets written in decimal
//! without leading zeros, separated by dots.
use vstd::prelude::*;
use crate::wire::{prefix_at, lemma_prefix_join, lemma_prefix_split};

verus! {

/// An IPv4 address by its four octets, most significant first.
#[derive(Debug, Clone, Copy, PartialEq, Eq, Structural)]
pub struct Ipv4Address(pub u8, pub u8, pub u8, pub u8);

/// The loopback address 127.0.0.1.
pub open spec fn loopback() -> Ipv4Address {
    Ipv4Address(127, 0, 0, 1)
}

/// The character of the decimal digit `d`.
pub open spec fn digit_char(d: int) -> char {
    (d + 48) as char
}

/// A decimal digit character.
pub open spec fn is_digit(c: char) -> bool {
    48 <= c as u32 <= 57
}

/// The decimal text of an octet, without leading zeros.
pub open spec fn decimal_text(v: u8) -> Seq<char> {
    let x = v as int;
    if x < 10 {
        seq![digit_char(x)]
    } else if x < 100 {
        seq![digit_char(x / 10), digit_char(x % 10)]
    } else {
        seq![digit_char(x / 100), digit_char((x / 10) % 10), digit_char(x % 10)]
    }
}

/// The dotted-decimal text of an address.
pub open spec fn ipv4_text(a: Ipv4Address) -> Seq<char> {
    decimal_text(a.0) + seq!['.'] + decimal_text(a.1) + seq!['.'] + decimal_text(a.2) + seq!['.']
        + decimal_text(a.3)
}

/// The text of octet `v` stands at `pos` and no further digit follows it.
pub open spec fn octet_at(s: Seq<char>, pos: int, v: u8) -> bool {
    let t = decimal_text(v);
    &&& prefix_at(s, pos, t)
    &&& (pos + t.len() == s.len() || !is_digit(s[pos + t.len()]))
}

/// The shape of the decimal text of an octet.
proof fn lemma_decimal_text(v: u8)
    ensures
        v < 10 ==> decimal_text(v).len() == 1 && decimal_text(v)[0] == digit_char(v as int),
        10 <= v < 100 ==> decimal_text(v).len() == 2 && decimal_text(v)[0] == digit_char(
            v as int / 10,
        ) && decimal_text(v)[1] == digit_char(v as int % 10) && 1 <= v as int / 10 <= 9,
        100 <= v ==> decimal_text(v).len() == 3 && decimal_text(v)[0] == digit_char(
            v as int / 100,
        ) && decimal_text(v)[1] == digit_char((v as int / 10) % 10) && decimal_text(v)[2]
            == digit_char(v as int % 10) && 1 <= v as int / 100 <= 2,
        forall|k: int| 0 <= k < decimal_text(v).len() ==> is_digit(#[trigger] decimal_text(v)[k]),
{
    assert forall|d: int| 0 <= d < 10 implies is_digit(#[trigger] digit_char(d)) && (digit_char(
        d,
    ) as u32) == d + 48 by {
        assert((((d + 48) as char) as u32) == d + 48);
    }
    let x = v as int;
    if 100 <= x {
        assert(1 <= x / 100 <= 2) by (nonlinear_arith)
            requires
                100 <= x <= 255,
        ;
    }
    if 10 <= x < 100 {
        assert(1 <= x / 10 <= 9) by (nonlinear_arith)
            requires
                10 <= x < 100,
        ;
    }
}

/// The digit value of the character at `i`, if it is a digit.
fn digit_at(s: &str, n: usize, i: usize) -> (r: Option<u32>)
    requires
        n == s@.len(),
    ensures
        r matches Some(d) ==> i < n && is_digit(s@[i as int]) && d < 10 && s@[i as int]
            == digit_char(d as int),
        r is None ==> i >= n || !is_digit(s@[i as int]),
{
    if i >= n {
        return None;
    }
    let c = s.get_char(i);
    let code = c as u32;
    if code >= 48 && code <= 57 {
        proof {
            vstd::utf8::char_u32_cast(c, code);
        }
        Some(code - 48)
    } else {
        None
    }
}

/// Reads the octet at `pos`: one to three digits, no leading zero, at most
/// 255, and not followed by a further digit.
fn parse_octet(s: &str, n: usize, pos: usize) -> (r: Option<(u8, usize)>)
    requires
        n == s@.len(),
        pos <= n,
    ensures
        r matches Some((v, end)) ==> octet_at(s@, pos as int, v) && end == pos + decimal_text(
            v,
        ).len(),
        forall|v: u8|
            octet_at(s@, pos as int, v) ==> (r matches Some((w, end)) && w == v && end == pos
                + decimal_text(v).len()),
{
    proof {
        assert forall|d: int| 0 <= d < 10 implies (#[trigger] digit_char(d) as u32) == d + 48 by {
            assert((((d + 48) as char) as u32) == d + 48);
        }
    }
    let d0 = match digit_at(s, n, pos) {
        Some(d) => d,
        None => {
            proof {
                assert forall|v: u8| !octet_at(s@, pos as int, v) by {
                    lemma_decimal_text(v);
                    if octet_at(s@, pos as int, v) {
                        assert(s@.subrange(pos as int, pos + decimal_text(v).len())[0]
                            == decimal_text(v)[0]);
                    }
                }
            }
            return None;
        },
    };
    let n1 = digit_at(s, n, pos + 1);
    if n1.is_none() {
        let v = d0 as u8;
        proof {
            lemma_decimal_text(v);
            assert(s@.subrange(pos as int, pos + 1) =~= decimal_text(v));
            assert forall|w: u8| octet_at(s@, pos as int, w) implies w == v by {
                lemma_decimal_text(w);
                let t = decimal_text(w);
                assert(s@.subrange(pos as int, pos + t.len())[0] == t[0]);
                if t.len() > 1 {
                    assert(s@.subrange(pos as int, pos + t.len())[1] == t[1]);
                }
            }
        }
        return Some((v, pos + 1));
    }
    let d1 = n1.unwrap();
    if d0 == 0 {
        proof {
            assert forall|w: u8| !octet_at(s@, pos as int, w) by {
                lemma_decimal_text(w);
                let t = decimal_text(w);
                if octet_at(s@, pos as int, w) {
                    assert(s@.subrange(pos as int, pos + t.len())[0] == t[0]);
                }
            }
        }
        return None;
    }
    let n2 = digit_at(s, n, pos + 2);
    if n2.is_none() {
        let v = (d0 * 10 + d1) as u8;
        proof {
            lemma_decimal_text(v);
            assert(v as int / 10 == d0 && v as int % 10 == d1);
            assert(s@.subrange(pos as int, pos + 2) =~= decimal_text(v));
            assert forall|w: u8| octet_at(s@, pos as int, w) implies w == v by {
                lemma_decimal_text(w);
                let t = decimal_text(w);
                assert(s@.subrange(pos as int, pos + t.len())[0] == t[0]);
                assert(s@.subrange(pos as int, pos + t.len())[1] == t[1]);
                if t.len() > 2 {
                    assert(s@.subrange(pos as int, pos + t.len())[2] == t[2]);
                }
            }
        }
        return Some((v, pos + 2));
    }
    let d2 = n2.unwrap();
    let n3 = digit_at(s, n, pos + 3);
    let value = d0 * 100 + d1 * 10 + d2;
    if n3.is_some() || value > 255 {
        proof {
            assert forall|w: u8| !octet_at(s@, pos as int, w) by {
                lemma_decimal_text(w);
                let t = decimal_text(w);
                if octet_at(s@, pos as int, w) {
                    assert(s@.subrange(pos as int, pos + t.len())[0] == t[0]);
                    assert(s@.subrange(pos as int, pos + t.len())[1] == t[1]);
                    assert(s@.subrange(pos as int, pos + t.len())[2] == t[2]);
                }
            }
        }
        return None;
    }
    let v = value as u8;
    proof {
        lemma_decimal_text(v);
        assert(v as int / 100 == d0 && (v as int / 10) % 10 == d1 && v as int % 10 == d2);
        assert(s@.subrange(pos as int, pos + 3) =~= decimal_text(v));
        assert forall|w: u8| octet_at(s@, pos as int, w) implies w == v by {
            lemma_decimal_text(w);
            let t = decimal_text(w);
            assert(s@.subrange(pos as int, pos + t.len())[0] == t[0]);
            assert(s@.subrange(pos as int, pos + t.len())[1] == t[1]);
            assert(s@.subrange(pos as int, pos + t.len())[2] == t[2]);
        }
    }
    Some((v, pos + 3))
}

/// Where the pieces of an address's text stand: the text of the first
/// octet, a dot, the second, a dot, the third, a dot and the fourth, each
/// octet's text not followed by a further digit.
pub proof fn lemma_ipv4_parts(s: Seq<char>, a: Ipv4Address)
    requires
        s == ipv4_text(a),
    ensures
        ({
            let l0 = decimal_text(a.0).len() as int;
            let l1 = decimal_text(a.1).len() as int;
            let l2 = decimal_text(a.2).len() as int;
            let l3 = decimal_text(a.3).len() as int;
            &&& octet_at(s, 0, a.0)
            &&& s[l0] == '.'
            &&& octet_at(s, l0 + 1, a.1)
            &&& s[l0 + 1 + l1] == '.'
            &&& octet_at(s, l0 + l1 + 2, a.2)
            &&& s[l0 + l1 + 2 + l2] == '.'
            &&& octet_at(s, l0 + l1 + l2 + 3, a.3)
            &&& s.len() == l0 + l1 + l2 + l3 + 3
        }),
{
    let t0 = decimal_text(a.0);
    let t1 = decimal_text(a.1);
    let t2 = decimal_text(a.2);
    let t3 = decimal_text(a.3);
    let dot = seq!['.'];
    assert(('.' as u32) == 46);
    assert(prefix_at(s, 0, s)) by {
        assert(s.subrange(0, s.len() as int) =~= s);
    }
    lemma_prefix_split(s, 0, t0 + dot + t1 + dot + t2 + dot, t3);
    lemma_prefix_split(s, 0, t0 + dot + t1 + dot + t2, dot);
    lemma_prefix_split(s, 0, t0 + dot + t1 + dot, t2);
    lemma_prefix_split(s, 0, t0 + dot + t1, dot);
    lemma_prefix_split(s, 0, t0 + dot, t1);
    lemma_prefix_split(s, 0, t0, dot);
    let l0 = t0.len() as int;
    let l1 = t1.len() as int;
    let l2 = t2.len() as int;
    assert(s[l0] == s.subrange(l0, l0 + 1)[0]);
    assert(s[l0 + 1 + l1] == s.subrange(l0 + 1 + l1, l0 + 2 + l1)[0]);
    assert(s[l0 + l1 + 2 + l2] == s.subrange(l0 + l1 + 2 + l2, l0 + l1 + 3 + l2)[0]);
}

/// Octets and dots that stand one after the other and fill the text make
/// up the address's text.
proof fn lemma_ipv4_assemble(s: Seq<char>, a: Ipv4Address, p0: int, p1: int, p2: int)
    requires
        octet_at(s, 0, a.0),
        p0 == decimal_text(a.0).len(),
        s[p0] == '.',
        octet_at(s, p0 + 1, a.1),
        p1 == p0 + 1 + decimal_text(a.1).len(),
        s[p1] == '.',
        octet_at(s, p1 + 1, a.2),
        p2 == p1 + 1 + decimal_text(a.2).len(),
        s[p2] == '.',
        octet_at(s, p2 + 1, a.3),
        s.len() == p2 + 1 + decimal_text(a.3).len(),
    ensures
        s == ipv4_text(a),
{
    let dot = seq!['.'];
    let t0 = decimal_text(a.0);
    let t1 = decimal_text(a.1);
    let t2 = decimal_text(a.2);
    let t3 = decimal_text(a.3);
    assert(prefix_at(s, p0, dot)) by {
        assert(s.subrange(p0, p0 + 1) =~= dot);
    }
    assert(prefix_at(s, p1, dot)) by {
        assert(s.subrange(p1, p1 + 1) =~= dot);
    }
    assert(prefix_at(s, p2, dot)) by {
        assert(s.subrange(p2, p2 + 1) =~= dot);
    }
    lemma_prefix_join(s, 0, t0, dot);
    lemma_prefix_join(s, 0, t0 + dot, t1);
    lemma_prefix_join(s, 0, t0 + dot + t1, dot);
    lemma_prefix_join(s, 0, t0 + dot + t1 + dot, t2);
    lemma_prefix_join(s, 0, t0 + dot + t1 + dot + t2, dot);
    lemma_prefix_join(s, 0, t0 + dot + t1 + dot + t2 + dot, t3);
    assert(s.subrange(0, s.len() as int) =~= s);
}

/// Is the character at `pos` a dot?
fn dot_at(s: &str, n: usize, pos: usize) -> (r: bool)
    requires
        n == s@.len(),
    ensures
        r == (pos < n && s@[pos as int] == '.'),
{
    pos < n && s.get_char(pos) == '.'
}

/// Parses an IPv4 address in dotted-decimal text. The text is accepted
/// exactly when it is the dotted-decimal text of some address: four
/// octets of one to three digits without leading zeros, each at most 255,
/// separated by single dots, with nothing before or after.
#[verifier::spinoff_prover]
#[verifier::rlimit(40)]
pub fn parse_ipv4(s: &str) -> (r: Option<Ipv4Address>)
    ensures
        r matches Some(a) ==> s@ == ipv4_text(a),
        forall|a: Ipv4Address| s@ == #[trigger] ipv4_text(a) ==> r == Some(a),
{
    let n = s.unicode_len();
    let (o0, p0) = match parse_octet(s, n, 0) {
        Some(x) => x,
        None => {
            proof {
                assert forall|a: Ipv4Address| s@ != #[trigger] ipv4_text(a) by {
                    if s@ == ipv4_text(a) {
                        lemma_ipv4_parts(s@, a);
                    }
                }
            }
            return None;
        },
    };
    proof {
        assert forall|a: Ipv4Address| s@ == #[trigger] ipv4_text(a) implies a.0 == o0 && p0
            == decimal_text(a.0).len() by {
            lemma_ipv4_parts(s@, a);
        }
    }
    if !dot_at(s, n, p0) {
        proof {
            assert forall|a: Ipv4Address| s@ != #[trigger] ipv4_text(a) by {
                if s@ == ipv4_text(a) {
                    lemma_ipv4_parts(s@, a);
                }
            }
        }
        return None;
    }
    let (o1, p1) = match parse_octet(s, n, p0 + 1) {
        Some(x) => x,
        None => {
            proof {
                assert forall|a: Ipv4Address| s@ != #[trigger] ipv4_text(a) by {
                    if s@ == ipv4_text(a) {
                        lemma_ipv4_parts(s@, a);
                    }
                }
            }
            return None;
        },
    };
    proof {
        assert forall|a: Ipv4Address| s@ == #[trigger] ipv4_text(a) implies a.1 == o1 && p1
            == p0 + 1 + decimal_text(a.1).len() by {
            lemma_ipv4_parts(s@, a);
        }
    }
    if !dot_at(s, n, p1) {
        proof {
            assert forall|a: Ipv4Address| s@ != #[trigger] ipv4_text(a) by {
                if s@ == ipv4_text(a) {
                    lemma_ipv4_parts(s@, a);
                }
            }
        }
        return None;
    }
    let (o2, p2) = match parse_octet(s, n, p1 + 1) {
        Some(x) => x,
        None => {
            proof {
                assert forall|a: Ipv4Address| s@ != #[trigger] ipv4_text(a) by {
                    if s@ == ipv4_text(a) {
                        lemma_ipv4_parts(s@, a);
                    }
                }
            }
            return None;
        },
    };
    proof {
        assert forall|a: Ipv4Address| s@ == #[trigger] ipv4_text(a) implies a.2 == o2 && p2
            == p1 + 1 + decimal_text(a.2).len() by {
            lemma_ipv4_parts(s@, a);
        }
    }
    if !dot_at(s, n, p2) {
        proof {
            assert forall|a: Ipv4Address| s@ != #[trigger] ipv4_text(a) by {
                if s@ == ipv4_text(a) {
                    lemma_ipv4_parts(s@, a);
                }
            }
        }
        return None;
    }
    let (o3, p3) = match parse_octet(s, n, p2 + 1) {
        Some(x) => x,
        None => {
            proof {
                assert forall|a: Ipv4Address| s@ != #[trigger] ipv4_text(a) by {
                    if s@ == ipv4_text(a) {
                        lemma_ipv4_parts(s@, a);
                    }
                }
            }
            return None;
        },
    };
    if p3 != n {
        proof {
            assert forall|a: Ipv4Address| s@ != #[trigger] ipv4_text(a) by {
                if s@ == ipv4_text(a) {
                    lemma_ipv4_parts(s@, a);
                }
            }
        }
        return None;
    }
    let addr = Ipv4Address(o0, o1, o2, o3);
    proof {
        assert forall|a: Ipv4Address| s@ == #[trigger] ipv4_text(a) implies a == addr by {
            lemma_ipv4_parts(s@, a);
        }
        lemma_ipv4_assemble(s@, addr, p0 as int, p1 as int, p2 as int);
    }
    Some(addr)
}

/// Two octets whose texts both stand at `pos`, each not followed by a
/// digit, are the same octet.
proof fn lemma_octet_unique(s: Seq<char>, pos: int, v1: u8, v2: u8)
    requires
        octet_at(s, pos, v1),
        octet_at(s, pos, v2),
    ensures
        v1 == v2,
{
    lemma_decimal_text(v1);
    lemma_decimal_text(v2);
    let t1 = decimal_text(v1);
    let t2 = decimal_text(v2);
    if t1.len() < t2.len() {
        assert(s.subrange(pos, pos + t2.len())[t1.len() as int] == t2[t1.len() as int]);
        assert(false);
    }
    if t2.len() < t1.len() {
        assert(s.subrange(pos, pos + t1.len())[t2.len() as int] == t1[t2.len() as int]);
        assert(false);
    }
    assert(t1 == t2);
    assert forall|d: int| 0 <= d < 10 implies (#[trigger] digit_char(d) as u32) == d + 48 by {
        assert((((d + 48) as char) as u32) == d + 48);
    }
    let x1 = v1 as int;
    let x2 = v2 as int;
    if t1.len() == 1 {
        assert(digit_char(x1) as u32 == digit_char(x2) as u32);
    } else if t1.len() == 2 {
        assert(digit_char(x1 / 10) as u32 == digit_char(x2 / 10) as u32);
        assert(digit_char(x1 % 10) as u32 == digit_char(x2 % 10) as u32);
        assert(x1 == 10 * (x1 / 10) + x1 % 10);
        assert(x2 == 10 * (x2 / 10) + x2 % 10);
    } else {
        assert(digit_char(x1 / 100) as u32 == digit_char(x2 / 100) as u32);
        assert(digit_char((x1 / 10) % 10) as u32 == digit_char((x2 / 10) % 10) as u32);
        assert(digit_char(x1 % 10) as u32 == digit_char(x2 % 10) as u32);
        assert(x1 == 100 * (x1 / 100) + 10 * ((x1 / 10) % 10) + x1 % 10);
        assert(x2 == 100 * (x2 / 100) + 10 * ((x2 / 10) % 10) + x2 % 10);
    }
}

/// The dotted-decimal text of an address names that address only.
pub proof fn lemma_ipv4_text_unique(a1: Ipv4Address, a2: Ipv4Address)
    requires
        ipv4_text(a1) == ipv4_text(a2),
    ensures
        a1 == a2,
{
    let s = ipv4_text(a1);
    lemma_ipv4_parts(s, a1);
    lemma_ipv4_parts(s, a2);
    lemma_octet_unique(s, 0, a1.0, a2.0);
    let p1: int = decimal_text(a1.0).len() + 1int;
    lemma_octet_unique(s, p1, a1.1, a2.1);
    let p2: int = p1 + decimal_text(a1.1).len() + 1;
    lemma_octet_unique(s, p2, a1.2, a2.2);
    let p3: int = p2 + decimal_text(a1.2).len() + 1;
    lemma_octet_unique(s, p3, a1.3, a2.3);
}

/// The decimal text of an octet: one to three ASCII digits whose decimal
/// value is the octet, with no leading zero, and as few digits as the
/// value needs.
pub proof fn lemma_decimal_text_value(v: u8)
    ensures
        ({
            let t = decimal_text(v);
            let d = |k: int| (t[k] as u32) - 48;
            &&& 1 <= t.len() <= 3
            &&& forall|k: int| 0 <= k < t.len() ==> 48 <= #[trigger] (t[k] as u32) <= 57
            &&& t.len() > 1 ==> t[0] != '0'
            &&& t.len() == 1 ==> v == d(0)
            &&& t.len() == 2 ==> v == 10 * d(0) + d(1)
            &&& t.len() == 3 ==> v == 100 * d(0) + 10 * d(1) + d(2)
            &&& (t.len() == 1 <==> v < 10)
            &&& (t.len() == 2 <==> 10 <= v < 100)
        }),
{
    lemma_decimal_text(v);
    assert forall|e: int| 0 <= e < 10 implies (#[trigger] digit_char(e) as u32) == e + 48 by {
        assert((((e + 48) as char) as u32) == e + 48);
    }
    assert(('0' as u32) == 48);
    let x = v as int;
    assert(x == 100 * (x / 100) + 10 * ((x / 10) % 10) + x % 10);
    assert(x == 10 * (x / 10) + x % 10);
}

} // verus!
