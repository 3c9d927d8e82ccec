//! IP addresses and the address literals of RFC 5321, which stand between
//! square brackets in the place of a domain.

use vstd::prelude::*;
use crate::text::{ascii_upto, Text};

verus! {

/// An IP address: the four octets of an IPv4 address, or the eight groups of
/// an IPv6 address.
#[derive(PartialEq, Eq, Clone, Copy, Debug, Structural)]
pub enum IpAddr {
    Ipv4Addr(u8, u8, u8, u8),
    Ipv6Addr(u16, u16, u16, u16, u16, u16, u16, u16),
}

pub open spec fn is_digit(c: char) -> bool {
    '0' <= c <= '9'
}

pub open spec fn is_hex_digit(c: char) -> bool {
    is_digit(c) || 'a' <= c <= 'f' || 'A' <= c <= 'F'
}

/// The value of a hexadecimal digit, which for a decimal digit is its decimal
/// value.
pub open spec fn hex_digit_value(c: char) -> int {
    if is_digit(c) {
        c as int - '0' as int
    } else if 'a' <= c <= 'f' {
        c as int - 'a' as int + 10
    } else {
        c as int - 'A' as int + 10
    }
}

/// The number that the digits of `t` write in the given base.
pub open spec fn number_value(t: Seq<char>, base: int) -> int
    decreases t.len(),
{
    if t.len() == 0 {
        0
    } else {
        base * number_value(t.drop_last(), base) + hex_digit_value(t.last())
    }
}

/// `Snum = 1*3DIGIT`, a decimal number from 0 to 255.
pub open spec fn is_snum(t: Seq<char>) -> bool {
    &&& 1 <= t.len() <= 3
    &&& forall|i: int| 0 <= i < t.len() ==> is_digit(#[trigger] t[i])
    &&& number_value(t, 10) <= 255
}

/// `IPv6-hex = 1*4HEXDIG`.
pub open spec fn is_hex_group(t: Seq<char>) -> bool {
    &&& 1 <= t.len() <= 4
    &&& forall|i: int| 0 <= i < t.len() ==> is_hex_digit(#[trigger] t[i])
}

/// Where the field that starts at `from` ends: at the first `sep` at or
/// behind `from` and before `to`, or else at `to`.
pub open spec fn field_end(s: Seq<char>, from: int, to: int, sep: char) -> int
    decreases to - from,
{
    if from >= to {
        to
    } else if s[from] == sep {
        from
    } else {
        field_end(s, from + 1, to, sep)
    }
}

/// `IPv4-address-literal = Snum 3("." Snum)`, read from the characters of `s`
/// from `from` up to `to`.
pub open spec fn spec_ipv4(s: Seq<char>, from: int, to: int) -> Option<IpAddr> {
    let e0 = field_end(s, from, to, '.');
    let e1 = field_end(s, e0 + 1, to, '.');
    let e2 = field_end(s, e1 + 1, to, '.');
    let e3 = field_end(s, e2 + 1, to, '.');
    let a = s.subrange(from, e0);
    let b = s.subrange(e0 + 1, e1);
    let c = s.subrange(e1 + 1, e2);
    let d = s.subrange(e2 + 1, e3);
    if from <= to <= s.len() && e2 < to && e3 == to && is_snum(a) && is_snum(b) && is_snum(c)
        && is_snum(d) {
        Some(
            IpAddr::Ipv4Addr(
                number_value(a, 10) as u8,
                number_value(b, 10) as u8,
                number_value(c, 10) as u8,
                number_value(d, 10) as u8,
            ),
        )
    } else {
        None
    }
}

/// `IPv6-hex *(":" IPv6-hex)`: the values of one or more groups with a colon
/// between each two, read from the characters of `s` from `from` up to `to`.
pub open spec fn spec_hex_groups(s: Seq<char>, from: int, to: int) -> Option<Seq<u16>>
    decreases to - from,
{
    let e = field_end(s, from, to, ':');
    let g = s.subrange(from, e);
    if !(0 <= from <= to <= s.len()) || !is_hex_group(g) {
        None
    } else if e == to {
        Some(seq![number_value(g, 16) as u16])
    } else if e < from || e > to {
        None
    } else {
        match spec_hex_groups(s, e + 1, to) {
            Some(rest) => Some(seq![number_value(g, 16) as u16] + rest),
            None => None,
        }
    }
}

/// The groups on one side of a `::`, of which there may be none.
pub open spec fn spec_hex_side(s: Seq<char>, from: int, to: int) -> Option<Seq<u16>> {
    if from == to {
        Some(Seq::empty())
    } else {
        spec_hex_groups(s, from, to)
    }
}

/// The position of the first `::` that lies between `from` and `to`, or `to`
/// where there is none.
pub open spec fn double_colon(s: Seq<char>, from: int, to: int) -> int
    decreases to - from,
{
    if from + 1 >= to {
        to
    } else if s[from] == ':' && s[from + 1] == ':' {
        from
    } else {
        double_colon(s, from + 1, to)
    }
}

/// The address with the given eight groups.
pub open spec fn ipv6_of(g: Seq<u16>) -> IpAddr {
    IpAddr::Ipv6Addr(g[0], g[1], g[2], g[3], g[4], g[5], g[6], g[7])
}

/// `IPv6-full` or `IPv6-comp` of RFC 5321, read from the characters of `s`
/// from `from` up to `to`: eight groups, or up to six groups around one `::`,
/// which stands for the groups of zeros that are missing.
pub open spec fn spec_ipv6(s: Seq<char>, from: int, to: int) -> Option<IpAddr> {
    let dc = double_colon(s, from, to);
    if dc == to {
        match spec_hex_groups(s, from, to) {
            Some(g) => if g.len() == 8 {
                Some(ipv6_of(g))
            } else {
                None
            },
            None => None,
        }
    } else {
        match (spec_hex_side(s, from, dc), spec_hex_side(s, dc + 2, to)) {
            (Some(l), Some(r)) => if l.len() + r.len() <= 6 {
                Some(ipv6_of(l + Seq::new((8 - l.len() - r.len()) as nat, |i: int| 0u16) + r))
            } else {
                None
            },
            _ => None,
        }
    }
}

/// The tag that opens an IPv6 address literal.
pub open spec fn ipv6_tag() -> Seq<char> {
    seq!['I', 'p', 'v', '6', ':']
}

/// The address that the text of `s` from `from` to its end writes as an
/// address literal: `[` and `]` around an IPv4 address, or around `Ipv6:` and
/// an IPv6 address.
pub open spec fn spec_ip_literal(s: Seq<char>, from: int) -> Option<IpAddr> {
    let to = s.len() - 1;
    if 0 <= from < to && s[from] == '[' && s[to] == ']' {
        if from + 6 <= to && s.subrange(from + 1, from + 6) == ipv6_tag() {
            spec_ipv6(s, from + 6, to)
        } else {
            spec_ipv4(s, from + 1, to)
        }
    } else {
        None
    }
}

/// A character that an address literal may hold between its brackets.
pub open spec fn is_literal_char(c: char) -> bool {
    ||| 'A' <= c <= 'Z'
    ||| 'a' <= c <= 'z'
    ||| '0' <= c <= '9'
    ||| c == '.'
    ||| c == ':'
}

/// The field that starts at `from` ends at `field_end`: there is no
/// separator in it, and behind it stands a separator or the end.
pub proof fn lemma_field_end(s: Seq<char>, from: int, to: int, sep: char)
    requires
        from <= to,
    ensures
        from <= field_end(s, from, to, sep) <= to,
        forall|j: int| from <= j < field_end(s, from, to, sep) ==> s[j] != sep,
        field_end(s, from, to, sep) < to ==> s[field_end(s, from, to, sep)] == sep,
    decreases to - from,
{
    if from < to && s[from] != sep {
        lemma_field_end(s, from + 1, to, sep);
    }
}

/// A stretch without a separator, with a separator or the end behind it, is
/// a field.
pub proof fn lemma_field_end_is(s: Seq<char>, from: int, e: int, to: int, sep: char)
    requires
        from <= e <= to,
        forall|j: int| from <= j < e ==> s[j] != sep,
        e < to ==> s[e] == sep,
    ensures
        field_end(s, from, to, sep) == e,
    decreases e - from,
{
    if from < e {
        lemma_field_end_is(s, from + 1, e, to, sep);
    }
}

/// The digits of a field and the separator behind it: decimal digits and a
/// dot in an IPv4 address, hexadecimal digits and a colon in an IPv6 address.
pub open spec fn field_digit(hex: bool, c: char) -> bool {
    if hex {
        is_hex_digit(c)
    } else {
        is_digit(c)
    }
}

pub open spec fn field_sep(hex: bool) -> char {
    if hex {
        ':'
    } else {
        '.'
    }
}

pub open spec fn field_base(hex: bool) -> int {
    if hex {
        16
    } else {
        10
    }
}

/// The field is a number of its kind: an `Snum`, or an `IPv6-hex` group.
pub open spec fn is_field(hex: bool, t: Seq<char>) -> bool {
    if hex {
        is_hex_group(t)
    } else {
        is_snum(t)
    }
}

/// The value of a digit in the given kind of field, or nothing where the
/// character is no such digit.
fn digit_of(hex: bool, c: char) -> (r: Option<u32>)
    ensures
        match r {
            Some(v) => field_digit(hex, c) && v == hex_digit_value(c) && v < field_base(hex),
            None => !field_digit(hex, c),
        },
{
    match c {
        '0'..='9' => Some(c as u32 - '0' as u32),
        'a'..='f' => if hex {
            Some(c as u32 - 'a' as u32 + 10)
        } else {
            None
        },
        'A'..='F' => if hex {
            Some(c as u32 - 'A' as u32 + 10)
        } else {
            None
        },
        _ => None,
    }
}

/// Reads the field that starts at `from`: its value and its end, where it is
/// a number of its kind.
fn scan_field(t: &Text, from: usize, to: usize, hex: bool) -> (res: Option<(u32, usize)>)
    requires
        t.wf(),
        from <= to <= t@.len(),
        ascii_upto(t@, to as int),
    ensures
        match res {
            Some((v, e)) => {
                &&& e == field_end(t@, from as int, to as int, field_sep(hex))
                &&& from < e <= to
                &&& is_field(hex, t@.subrange(from as int, e as int))
                &&& v == number_value(t@.subrange(from as int, e as int), field_base(hex))
                &&& v <= 0xffff
            },
            None => !is_field(
                hex,
                t@.subrange(from as int, field_end(t@, from as int, to as int, field_sep(hex))),
            ),
        },
{
    let ghost s = t@;
    let ghost sep = field_sep(hex);
    let ghost fe = field_end(s, from as int, to as int, sep);
    let max: usize = if hex {
        4
    } else {
        3
    };
    proof {
        t.lemma_bounded();
    }
    let mut i: usize = from;
    let mut v: u32 = 0;
    proof {
        lemma_field_end(s, from as int, to as int, sep);
        assert(s.subrange(from as int, from as int).len() == 0);
    }
    loop
        invariant
            t.wf(),
            s == t@,
            t@.len() <= usize::MAX,
            from <= i <= to <= s.len(),
            ascii_upto(s, to as int),
            i - from <= max,
            max == (if hex {
                4int
            } else {
                3int
            }),
            forall|j: int| from <= j < i ==> field_digit(hex, #[trigger] s[j]),
            v == number_value(s.subrange(from as int, i as int), field_base(hex)),
            i - from == 0 ==> v == 0,
            i - from == 1 ==> v < 0x10,
            i - from == 2 ==> v < 0x100,
            i - from == 3 ==> v < 0x1000,
            i - from == 4 ==> v < 0x10000,
        ensures
            i == to || !field_digit(hex, s[i as int]) || i - from == max,
        decreases to - i,
    {
        if i >= to || i - from == max {
            break;
        }
        proof {
            assert(ascii_upto(s, i as int));
        }
        let c = t.get(i);
        match digit_of(hex, c) {
            None => {
                break;
            },
            Some(d) => {
                proof {
                    let next = s.subrange(from as int, i + 1);
                    assert(next.drop_last() == s.subrange(from as int, i as int));
                    assert(next.last() == s[i as int]);
                }
                v = v * (if hex {
                    16
                } else {
                    10
                }) + d;
                i += 1;
            },
        }
    }
    let ghost run = s.subrange(from as int, i as int);
    let ghost field = s.subrange(from as int, fe);
    let ended = i >= to || t.get(i) == (if hex {
        ':'
    } else {
        '.'
    });
    if i == from || !ended || (!hex && v > 255) {
        proof {
            if i == from {
                if fe > from {
                    assert(field[0] == s[from as int]);
                }
            } else if !ended {
                if i < fe {
                    assert(field[i - from] == s[i as int]);
                } else {
                    assert(s[fe] == sep);
                    assert(field_digit(hex, s[fe]));
                }
            } else {
                lemma_field_end_is(s, from as int, i as int, to as int, sep);
            }
        }
        return None;
    }
    proof {
        lemma_field_end_is(s, from as int, i as int, to as int, sep);
        assert forall|j: int| 0 <= j < run.len() implies field_digit(hex, #[trigger] run[j]) by {
            assert(run[j] == s[from + j]);
        }
    }
    Some((v, i))
}

/// Reads an IPv4 address from the characters of the text from `from` up to
/// `to`.
pub fn parse_ipv4(t: &Text, from: usize, to: usize) -> (res: Option<IpAddr>)
    requires
        t.wf(),
        from <= to <= t@.len(),
        ascii_upto(t@, to as int),
    ensures
        res == spec_ipv4(t@, from as int, to as int),
{
    let ghost s = t@;
    proof {
        lemma_field_end(s, from as int, to as int, '.');
    }
    let (a, e0) = match scan_field(t, from, to, false) {
        Some(f) => f,
        None => {
            return None;
        },
    };
    if e0 == to {
        proof {
            reveal_with_fuel(field_end, 2);
        }
        return None;
    }
    proof {
        lemma_field_end(s, e0 + 1, to as int, '.');
    }
    let (b, e1) = match scan_field(t, e0 + 1, to, false) {
        Some(f) => f,
        None => {
            return None;
        },
    };
    if e1 == to {
        proof {
            reveal_with_fuel(field_end, 2);
        }
        return None;
    }
    proof {
        lemma_field_end(s, e1 + 1, to as int, '.');
    }
    let (c, e2) = match scan_field(t, e1 + 1, to, false) {
        Some(f) => f,
        None => {
            return None;
        },
    };
    if e2 == to {
        return None;
    }
    let (d, e3) = match scan_field(t, e2 + 1, to, false) {
        Some(f) => f,
        None => {
            return None;
        },
    };
    if e3 != to {
        return None;
    }
    Some(IpAddr::Ipv4Addr(a as u8, b as u8, c as u8, d as u8))
}

/// A list of groups has at least one group.
proof fn lemma_hex_groups_len(s: Seq<char>, from: int, to: int)
    ensures
        spec_hex_groups(s, from, to) matches Some(g) ==> g.len() >= 1,
    decreases to - from,
{
    let e = field_end(s, from, to, ':');
    if spec_hex_groups(s, from, to) is Some && e != to {
        lemma_hex_groups_len(s, e + 1, to);
    }
}

/// Reads groups with a colon between each two from the characters of the
/// text from `from` up to `to`. With more than eight groups there is no result.
pub fn parse_hex_groups(t: &Text, from: usize, to: usize) -> (res: Option<Vec<u16>>)
    requires
        t.wf(),
        from <= to <= t@.len(),
        ascii_upto(t@, to as int),
    ensures
        match spec_hex_groups(t@, from as int, to as int) {
            Some(g) => if g.len() <= 8 {
                res matches Some(v) && v@ == g
            } else {
                res is None
            },
            None => res is None,
        },
{
    let ghost s = t@;
    let ghost whole = spec_hex_groups(s, from as int, to as int);
    let mut acc: Vec<u16> = Vec::new();
    let mut pos: usize = from;
    proof {
        if whole is Some {
            assert(Seq::<u16>::empty() + whole->0 == whole->0);
        }
    }
    loop
        invariant
            t.wf(),
            s == t@,
            from <= pos <= to <= s.len(),
            ascii_upto(s, to as int),
            whole == spec_hex_groups(s, from as int, to as int),
            acc@.len() <= 8,
            match spec_hex_groups(s, pos as int, to as int) {
                Some(r) => whole == Some(acc@ + r),
                None => whole is None,
            },
        decreases to - pos,
    {
        proof {
            lemma_hex_groups_len(s, pos as int, to as int);
        }
        if acc.len() == 8 {
            return None;
        }
        let (v, e) = match scan_field(t, pos, to, true) {
            Some(f) => f,
            None => {
                return None;
            },
        };
        let ghost before = acc@;
        acc.push(v as u16);
        if e == to {
            return Some(acc);
        }
        proof {
            lemma_field_end(s, pos as int, to as int, ':');
            match spec_hex_groups(s, e + 1, to as int) {
                Some(r) => {
                    assert(before + (seq![v as u16] + r) == acc@ + r);
                },
                None => {},
            }
        }
        pos = e + 1;
    }
}

/// Where a `::` is found, there are two colons.
proof fn lemma_double_colon(s: Seq<char>, from: int, to: int)
    requires
        from <= to,
    ensures
        from <= double_colon(s, from, to) <= to,
        double_colon(s, from, to) < to ==> double_colon(s, from, to) + 1 < to && s[double_colon(
            s,
            from,
            to,
        )] == ':' && s[double_colon(s, from, to) + 1] == ':',
    decreases to - from,
{
    if from + 1 < to && !(s[from] == ':' && s[from + 1] == ':') {
        lemma_double_colon(s, from + 1, to);
    }
}

/// Finds the first `::` between `from` and `to`.
fn find_double_colon(t: &Text, from: usize, to: usize) -> (dc: usize)
    requires
        t.wf(),
        from <= to <= t@.len(),
        ascii_upto(t@, to as int),
    ensures
        dc == double_colon(t@, from as int, to as int),
        from <= dc <= to,
        dc < to ==> dc + 2 <= to,
{
    let ghost s = t@;
    proof {
        t.lemma_bounded();
    }
    let mut i: usize = from;
    proof {
        lemma_double_colon(s, from as int, to as int);
    }
    while to - i > 1
        invariant
            t.wf(),
            s == t@,
            t@.len() <= usize::MAX,
            from <= i <= to <= s.len(),
            ascii_upto(s, to as int),
            double_colon(s, i as int, to as int) == double_colon(s, from as int, to as int),
        decreases to - i,
    {
        proof {
            assert(ascii_upto(s, i as int));
            assert(ascii_upto(s, i + 1));
        }
        if t.get(i) == ':' && t.get(i + 1) == ':' {
            return i;
        }
        i += 1;
    }
    to
}

/// Reads an IPv6 address from the characters of the text from `from` up to
/// `to`.
pub fn parse_ipv6(t: &Text, from: usize, to: usize) -> (res: Option<IpAddr>)
    requires
        t.wf(),
        from <= to <= t@.len(),
        ascii_upto(t@, to as int),
    ensures
        res == spec_ipv6(t@, from as int, to as int),
{
    let ghost s = t@;
    let dc = find_double_colon(t, from, to);
    if dc == to {
        return match parse_hex_groups(t, from, to) {
            Some(g) => if g.len() == 8 {
                Some(IpAddr::Ipv6Addr(g[0], g[1], g[2], g[3], g[4], g[5], g[6], g[7]))
            } else {
                None
            },
            None => None,
        };
    }
    let left = if from == dc {
        Vec::new()
    } else {
        match parse_hex_groups(t, from, dc) {
            Some(g) => g,
            None => {
                return None;
            },
        }
    };
    let right = if dc + 2 == to {
        Vec::new()
    } else {
        match parse_hex_groups(t, dc + 2, to) {
            Some(g) => g,
            None => {
                return None;
            },
        }
    };
    if left.len() + right.len() > 6 {
        return None;
    }
    let ghost l = left@;
    let ghost r = right@;
    let ghost zeros = Seq::new((8 - l.len() - r.len()) as nat, |i: int| 0u16);
    let mut g = left;
    while g.len() + right.len() < 8
        invariant
            l.len() + r.len() <= 6,
            r == right@,
            l.len() <= g@.len() <= 8 - r.len(),
            zeros == Seq::new((8 - l.len() - r.len()) as nat, |i: int| 0u16),
            g@ == l + zeros.take(g@.len() - l.len()),
        decreases 8 - g@.len(),
    {
        g.push(0);
    }
    let mut k: usize = 0;
    while k < right.len()
        invariant
            r == right@,
            k <= r.len(),
            zeros.len() == 8 - l.len() - r.len(),
            g@ == l + zeros + r.take(k as int),
        decreases r.len() - k,
    {
        g.push(right[k]);
        k += 1;
    }
    assert(r.take(k as int) == r);
    Some(IpAddr::Ipv6Addr(g[0], g[1], g[2], g[3], g[4], g[5], g[6], g[7]))
}

/// A list of groups holds hexadecimal digits and colons only.
proof fn lemma_hex_groups_chars(s: Seq<char>, from: int, to: int, j: int)
    requires
        spec_hex_groups(s, from, to) is Some,
        from <= j < to,
    ensures
        is_literal_char(s[j]),
    decreases to - from,
{
    let e = field_end(s, from, to, ':');
    lemma_field_end(s, from, to, ':');
    if j < e {
        assert(s.subrange(from, e)[j - from] == s[j]);
    } else if j > e {
        lemma_hex_groups_chars(s, e + 1, to, j);
    }
}

/// An address between brackets holds letters, digits, dots and colons only.
proof fn lemma_literal_chars(s: Seq<char>, from: int, j: int)
    requires
        spec_ip_literal(s, from) is Some,
        from < j < s.len() - 1,
    ensures
        is_literal_char(s[j]),
{
    let to = s.len() - 1;
    if from + 6 <= to && s.subrange(from + 1, from + 6) == ipv6_tag() {
        if j < from + 6 {
            assert(s.subrange(from + 1, from + 6)[j - from - 1] == s[j]);
        } else {
            let a = from + 6;
            let dc = double_colon(s, a, to);
            lemma_double_colon(s, a, to);
            if dc == to {
                lemma_hex_groups_chars(s, a, to, j);
            } else if j < dc {
                lemma_hex_groups_chars(s, a, dc, j);
            } else if j >= dc + 2 {
                lemma_hex_groups_chars(s, dc + 2, to, j);
            }
        }
    } else {
        let a = from + 1;
        let e0 = field_end(s, a, to, '.');
        let e1 = field_end(s, e0 + 1, to, '.');
        let e2 = field_end(s, e1 + 1, to, '.');
        lemma_field_end(s, a, to, '.');
        lemma_field_end(s, e0 + 1, to, '.');
        lemma_field_end(s, e1 + 1, to, '.');
        if j < e0 {
            assert(s.subrange(a, e0)[j - a] == s[j]);
        } else if e0 < j < e1 {
            assert(s.subrange(e0 + 1, e1)[j - e0 - 1] == s[j]);
        } else if e1 < j < e2 {
            assert(s.subrange(e1 + 1, e2)[j - e1 - 1] == s[j]);
        } else if e2 < j {
            assert(s.subrange(e2 + 1, to)[j - e2 - 1] == s[j]);
        }
    }
}

fn is_literal(c: char) -> (b: bool)
    ensures
        b == is_literal_char(c),
{
    match c {
        'A'..='Z' | 'a'..='z' | '0'..='9' | '.' | ':' => true,
        _ => false,
    }
}

/// Reads the address literal that the text holds from `from` to its end.
pub fn parse_ip_literal(t: &Text, from: usize) -> (res: Option<IpAddr>)
    requires
        t.wf(),
        ascii_upto(t@, from as int),
    ensures
        res == spec_ip_literal(t@, from as int),
        res is Some ==> ascii_upto(t@, t@.len() as int),
{
    let ghost s = t@;
    proof {
        t.lemma_bounded();
    }
    if t.at_end(from) || t.get(from) != '[' {
        return None;
    }
    let mut i: usize = from + 1;
    loop
        invariant
            t.wf(),
            s == t@,
            t@.len() <= usize::MAX,
            from < i <= s.len(),
            ascii_upto(s, i as int),
            s[from as int] == '[',
            forall|j: int| from < j < i ==> is_literal_char(#[trigger] s[j]),
        ensures
            i < s.len() ==> !is_literal_char(s[i as int]),
        decreases s.len() - i,
    {
        if t.at_end(i) {
            break;
        }
        let c = t.get(i);
        if !is_literal(c) {
            break;
        }
        i += 1;
    }
    proof {
        if spec_ip_literal(s, from as int) is Some && i < s.len() - 1 {
            lemma_literal_chars(s, from as int, i as int);
        }
    }
    if t.at_end(i) || t.get(i) != ']' || !t.at_end(i + 1) {
        return None;
    }
    let tagged = i - from >= 6 && t.get(from + 1) == 'I' && t.get(from + 2) == 'p' && t.get(
        from + 3,
    ) == 'v' && t.get(from + 4) == '6' && t.get(from + 5) == ':';
    proof {
        if from + 6 <= i {
            let tag = s.subrange(from + 1, from + 6);
            assert(tag[0] == s[from + 1]);
            assert(tag[1] == s[from + 2]);
            assert(tag[2] == s[from + 3]);
            assert(tag[3] == s[from + 4]);
            assert(tag[4] == s[from + 5]);
            if tagged {
                assert(tag =~= ipv6_tag());
            }
        }
    }
    if tagged {
        parse_ipv6(t, from + 6, i)
    } else {
        parse_ipv4(t, from + 1, i)
    }
}

} // verus!
