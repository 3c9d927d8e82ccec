//! IP addresses as text: the address literal that stands for an address, and
//! the proof that reading the literal gives the address back.

use vstd::prelude::*;
use vstd::string::*;
use crate::common::ip::{
    double_colon, field_base, field_digit, field_end, field_sep, hex_digit_value, ipv6_of,
    ipv6_tag, is_digit, is_field, is_hex_digit, lemma_field_end_is, number_value,
    spec_hex_groups, spec_ip_literal, IpAddr,
};
use crate::text::{append_number, digits, number_text};

verus! {

/// A separator and the number behind it.
pub open spec fn sep_number(sep: char, n: nat, hex: bool) -> Seq<char> {
    seq![sep] + number_text(n, hex)
}

/// The address as an address literal: an IPv4 address as four decimal
/// numbers between brackets, an IPv6 address as its tag and eight hexadecimal
/// groups between brackets.
pub open spec fn ip_text(a: IpAddr) -> Seq<char> {
    match a {
        IpAddr::Ipv4Addr(a, b, c, d) => sep_number('[', a as nat, false) + sep_number(
            '.',
            b as nat,
            false,
        ) + sep_number('.', c as nat, false) + sep_number('.', d as nat, false) + seq![']'],
        IpAddr::Ipv6Addr(a, b, c, d, e, f, g, h) => seq!['['] + seq!['I', 'p', 'v', '6']
            + sep_number(':', a as nat, true) + sep_number(':', b as nat, true) + sep_number(
            ':',
            c as nat,
            true,
        ) + sep_number(':', d as nat, true) + sep_number(':', e as nat, true) + sep_number(
            ':',
            f as nat,
            true,
        ) + sep_number(':', g as nat, true) + sep_number(':', h as nat, true) + seq![']'],
    }
}

/// An octet takes three decimal digits at most, a group four hexadecimal
/// digits at most.
pub proof fn lemma_number_text_len(n: nat, hex: bool)
    requires
        n <= 0xffff,
    ensures
        1 <= number_text(n, hex).len(),
        hex ==> number_text(n, hex).len() <= 4,
        !hex && n <= 255 ==> number_text(n, hex).len() <= 3,
{
    reveal_with_fuel(number_text, 5);
}

/// An address literal has no more than 46 characters.
pub proof fn lemma_ip_text_len(a: IpAddr)
    ensures
        ip_text(a).len() <= 46,
{
    match a {
        IpAddr::Ipv4Addr(a, b, c, d) => {
            lemma_number_text_len(a as nat, false);
            lemma_number_text_len(b as nat, false);
            lemma_number_text_len(c as nat, false);
            lemma_number_text_len(d as nat, false);
        },
        IpAddr::Ipv6Addr(a, b, c, d, e, f, g, h) => {
            lemma_number_text_len(a as nat, true);
            lemma_number_text_len(b as nat, true);
            lemma_number_text_len(c as nat, true);
            lemma_number_text_len(d as nat, true);
            lemma_number_text_len(e as nat, true);
            lemma_number_text_len(f as nat, true);
            lemma_number_text_len(g as nat, true);
            lemma_number_text_len(h as nat, true);
        },
    }
}

/// Appends `piece` to `out`, of which `done` was appended before.
fn append_piece(
    out: &mut String,
    piece: &str,
    Ghost(start): Ghost<Seq<char>>,
    Ghost(done): Ghost<Seq<char>>,
)
    requires
        old(out)@ == start + done,
    ensures
        final(out)@ == start + (done + piece@),
{
    out.append(piece);
    assert((start + done) + piece@ =~= start + (done + piece@));
}

/// Appends a separator and a number to `out`, of which `done` was appended
/// before.
fn append_sep_number(
    out: &mut String,
    sep: char,
    n: usize,
    hex: bool,
    Ghost(start): Ghost<Seq<char>>,
    Ghost(done): Ghost<Seq<char>>,
)
    requires
        old(out)@ == start + done,
        sep == '[' || sep == '.' || sep == ':',
    ensures
        final(out)@ == start + (done + sep_number(sep, n as nat, hex)),
{
    proof {
        reveal_strlit("[");
        reveal_strlit(".");
        reveal_strlit(":");
        assert("["@ =~= seq!['[']);
        assert("."@ =~= seq!['.']);
        assert(":"@ =~= seq![':']);
    }
    out.append(
        if sep == '[' {
            "["
        } else if sep == '.' {
            "."
        } else {
            ":"
        },
    );
    append_number(out, n, hex);
    assert(((start + done) + seq![sep]) + number_text(n as nat, hex) =~= start + (done
        + sep_number(sep, n as nat, hex)));
}

impl IpAddr {
    /// Appends the address as an address literal to `out`.
    pub fn append_to(&self, out: &mut String)
        ensures
            final(out)@ == old(out)@ + ip_text(*self),
    {
        let ghost start = out@;
        let ghost mut done = Seq::<char>::empty();
        assert(out@ =~= start + done);
        match *self {
            IpAddr::Ipv4Addr(a, b, c, d) => {
                append_sep_number(out, '[', a as usize, false, Ghost(start), Ghost(done));
                proof {
                    assert(done + sep_number('[', a as nat, false) =~= sep_number(
                        '[',
                        a as nat,
                        false,
                    ));
                    done = sep_number('[', a as nat, false);
                }
                append_sep_number(out, '.', b as usize, false, Ghost(start), Ghost(done));
                proof {
                    done = done + sep_number('.', b as nat, false);
                }
                append_sep_number(out, '.', c as usize, false, Ghost(start), Ghost(done));
                proof {
                    done = done + sep_number('.', c as nat, false);
                }
                append_sep_number(out, '.', d as usize, false, Ghost(start), Ghost(done));
                proof {
                    done = done + sep_number('.', d as nat, false);
                }
                append_piece(out, "]", Ghost(start), Ghost(done));
                proof {
                    reveal_strlit("]");
                    assert("]"@ =~= seq![']']);
                }
            },
            IpAddr::Ipv6Addr(a, b, c, d, e, f, g, h) => {
                append_piece(out, "[Ipv6", Ghost(start), Ghost(done));
                proof {
                    reveal_strlit("[Ipv6");
                    assert(done + "[Ipv6"@ =~= seq!['['] + seq!['I', 'p', 'v', '6']);
                    done = seq!['['] + seq!['I', 'p', 'v', '6'];
                }
                append_sep_number(out, ':', a as usize, true, Ghost(start), Ghost(done));
                proof {
                    done = done + sep_number(':', a as nat, true);
                }
                append_sep_number(out, ':', b as usize, true, Ghost(start), Ghost(done));
                proof {
                    done = done + sep_number(':', b as nat, true);
                }
                append_sep_number(out, ':', c as usize, true, Ghost(start), Ghost(done));
                proof {
                    done = done + sep_number(':', c as nat, true);
                }
                append_sep_number(out, ':', d as usize, true, Ghost(start), Ghost(done));
                proof {
                    done = done + sep_number(':', d as nat, true);
                }
                append_sep_number(out, ':', e as usize, true, Ghost(start), Ghost(done));
                proof {
                    done = done + sep_number(':', e as nat, true);
                }
                append_sep_number(out, ':', f as usize, true, Ghost(start), Ghost(done));
                proof {
                    done = done + sep_number(':', f as nat, true);
                }
                append_sep_number(out, ':', g as usize, true, Ghost(start), Ghost(done));
                proof {
                    done = done + sep_number(':', g as nat, true);
                }
                append_sep_number(out, ':', h as usize, true, Ghost(start), Ghost(done));
                proof {
                    done = done + sep_number(':', h as nat, true);
                }
                append_piece(out, "]", Ghost(start), Ghost(done));
                proof {
                    reveal_strlit("]");
                    assert("]"@ =~= seq![']']);
                }
            },
        }
    }

    /// The address as an address literal.
    pub fn to_text(&self) -> (out: String)
        ensures
            out@ == ip_text(*self),
    {
        let mut out = String::new();
        self.append_to(&mut out);
        assert(Seq::<char>::empty() + ip_text(*self) =~= ip_text(*self));
        out
    }
}


/// Every digit of the table is a digit of its value.
proof fn lemma_digits(k: int)
    requires
        0 <= k < 16,
    ensures
        is_hex_digit(digits()[k]),
        hex_digit_value(digits()[k]) == k,
        k < 10 ==> is_digit(digits()[k]),
{
    let d = digits();
    assert(d[0] == '0' && d[1] == '1' && d[2] == '2' && d[3] == '3' && d[4] == '4' && d[5] == '5'
        && d[6] == '6' && d[7] == '7' && d[8] == '8' && d[9] == '9' && d[10] == 'a' && d[11]
        == 'b' && d[12] == 'c' && d[13] == 'd' && d[14] == 'e' && d[15] == 'f');
}

/// The text of a number is made of digits, and writes that number.
pub proof fn lemma_number_text_value(n: nat, hex: bool)
    ensures
        number_value(number_text(n, hex), field_base(hex)) == n,
        forall|i: int|
            0 <= i < number_text(n, hex).len() ==> field_digit(
                hex,
                #[trigger] number_text(n, hex)[i],
            ),
    decreases n,
{
    let base: nat = if hex {
        16
    } else {
        10
    };
    let t = number_text(n, hex);
    if n < base {
        lemma_digits(n as int);
        assert(t.drop_last().len() == 0);
        assert(number_value(t.drop_last(), base as int) == 0);
    } else {
        let head = number_text(n / base, hex);
        lemma_number_text_value(n / base, hex);
        lemma_digits((n % base) as int);
        assert(t.drop_last() == head);
        assert forall|i: int| 0 <= i < t.len() implies field_digit(hex, #[trigger] t[i]) by {
            if i < head.len() {
                assert(t[i] == head[i]);
            }
        }
    }
}

/// Where the text of a number stands in `s` from `p` to `e`, with a separator
/// or the end behind it, there is a field with that number.
proof fn lemma_field_at(s: Seq<char>, p: int, e: int, to: int, hex: bool, n: nat)
    requires
        0 <= p <= e <= to <= s.len(),
        s.subrange(p, e) == number_text(n, hex),
        if hex {
            n <= 0xffff
        } else {
            n <= 255
        },
        e < to ==> s[e] == field_sep(hex),
    ensures
        field_end(s, p, to, field_sep(hex)) == e,
        is_field(hex, s.subrange(p, e)),
        number_value(s.subrange(p, e), field_base(hex)) == n,
{
    let t = number_text(n, hex);
    lemma_number_text_value(n, hex);
    lemma_number_text_len(n, hex);
    assert forall|j: int| p <= j < e implies s[j] != field_sep(hex) by {
        assert(s[j] == t[j - p]);
        assert(field_digit(hex, t[j - p]));
    }
    lemma_field_end_is(s, p, e, to, field_sep(hex));
}

/// A text in three parts is the same however the parts are put together.
proof fn lemma_concat_assoc(x: Seq<char>, y: Seq<char>, z: Seq<char>)
    ensures
        x + (y + z) == (x + y) + z,
{
    assert(x + (y + z) =~= (x + y) + z);
}

/// Where a separator and a text stand in `s` behind `x`, and `z` stands
/// behind them.
proof fn lemma_piece(s: Seq<char>, x: Seq<char>, sep: char, t: Seq<char>, z: Seq<char>)
    requires
        s == (x + (seq![sep] + t)) + z,
    ensures
        s.len() == x.len() + 1 + t.len() + z.len(),
        s[x.len() as int] == sep,
        s.subrange(x.len() as int + 1, x.len() as int + 1 + t.len()) == t,
        z.len() > 0 ==> s[x.len() as int + 1 + t.len()] == z[0],
        (x + (seq![sep] + t)).len() == x.len() + 1 + t.len(),
{
    assert(s.subrange(x.len() as int + 1, x.len() as int + 1 + t.len()) =~= t);
}

/// The text of an IPv4 address, put together from its end.
proof fn lemma_ipv4_text_shape(a: u8, b: u8, c: u8, d: u8)
    ensures
        ip_text(IpAddr::Ipv4Addr(a, b, c, d)) == sep_number('[', a as nat, false) + (sep_number(
            '.',
            b as nat,
            false,
        ) + (sep_number('.', c as nat, false) + (sep_number('.', d as nat, false) + seq![']']))),
{
    let p1 = sep_number('[', a as nat, false);
    let p2 = sep_number('.', b as nat, false);
    let p3 = sep_number('.', c as nat, false);
    let p4 = sep_number('.', d as nat, false);
    let e = seq![']'];
    lemma_concat_assoc(p1 + p2 + p3, p4, e);
    lemma_concat_assoc(p1 + p2, p3, p4 + e);
    lemma_concat_assoc(p1, p2, p3 + (p4 + e));
}

/// Where the four numbers of an IPv4 address stand in `s` as an address
/// literal that begins at `from`, the literal is read as that address.
proof fn lemma_ipv4_fields(
    s: Seq<char>,
    from: int,
    e0: int,
    e1: int,
    e2: int,
    e3: int,
    a: u8,
    b: u8,
    c: u8,
    d: u8,
)
    requires
        0 <= from < e0 < e1 < e2 < e3,
        s.len() == e3 + 1,
        s[from] == '[',
        s[e0] == '.',
        s[e1] == '.',
        s[e2] == '.',
        s[e3] == ']',
        s.subrange(from + 1, e0) == number_text(a as nat, false),
        s.subrange(e0 + 1, e1) == number_text(b as nat, false),
        s.subrange(e1 + 1, e2) == number_text(c as nat, false),
        s.subrange(e2 + 1, e3) == number_text(d as nat, false),
    ensures
        spec_ip_literal(s, from) == Some(IpAddr::Ipv4Addr(a, b, c, d)),
{
    lemma_field_at(s, from + 1, e0, e3, false, a as nat);
    lemma_field_at(s, e0 + 1, e1, e3, false, b as nat);
    lemma_field_at(s, e1 + 1, e2, e3, false, c as nat);
    lemma_field_at(s, e2 + 1, e3, e3, false, d as nat);
    if from + 6 <= e3 {
        assert(s.subrange(from + 1, from + 6)[0] == s[from + 1]);
        assert(s.subrange(from + 1, e0)[0] == s[from + 1]);
        assert(is_digit(s[from + 1]));
        assert(ipv6_tag()[0] == 'I');
    }
}

/// The text of an IPv4 address is read as that address, whatever stands
/// before it.
pub proof fn lemma_ipv4_text(pre: Seq<char>, a: u8, b: u8, c: u8, d: u8)
    ensures
        spec_ip_literal(pre + ip_text(IpAddr::Ipv4Addr(a, b, c, d)), pre.len() as int) == Some(
            IpAddr::Ipv4Addr(a, b, c, d),
        ),
{
    let ta = number_text(a as nat, false);
    let tb = number_text(b as nat, false);
    let tc = number_text(c as nat, false);
    let td = number_text(d as nat, false);
    let p1 = sep_number('[', a as nat, false);
    let p2 = sep_number('.', b as nat, false);
    let p3 = sep_number('.', c as nat, false);
    let p4 = sep_number('.', d as nat, false);
    let e = seq![']'];
    let r3 = p4 + e;
    let r2 = p3 + r3;
    let r1 = p2 + r2;
    let s = pre + ip_text(IpAddr::Ipv4Addr(a, b, c, d));
    let from = pre.len() as int;
    let e0 = from + 1 + ta.len();
    let e1 = e0 + 1 + tb.len();
    let e2 = e1 + 1 + tc.len();
    let e3 = e2 + 1 + td.len();
    lemma_number_text_len(a as nat, false);
    lemma_number_text_len(b as nat, false);
    lemma_number_text_len(c as nat, false);
    lemma_number_text_len(d as nat, false);
    lemma_ipv4_text_shape(a, b, c, d);
    let x1 = pre + p1;
    let x2 = x1 + p2;
    let x3 = x2 + p3;
    lemma_concat_assoc(pre, p1, r1);
    lemma_piece(s, pre, '[', ta, r1);
    lemma_concat_assoc(x1, p2, r2);
    lemma_piece(s, x1, '.', tb, r2);
    lemma_concat_assoc(x2, p3, r3);
    lemma_piece(s, x2, '.', tc, r3);
    lemma_concat_assoc(x3, p4, e);
    lemma_piece(s, x3, '.', td, e);
    assert(r1[0] == '.');
    assert(r2[0] == '.');
    assert(r3[0] == '.');
    assert(e[0] == ']');
    lemma_ipv4_fields(s, from, e0, e1, e2, e3, a, b, c, d);
}


/// Behind a group and its colon the groups go on: a group, a colon and a list
/// of groups are a list of groups. A group alone that ends the text is a list
/// of one.
proof fn lemma_hex_step(s: Seq<char>, p: int, e: int, to: int, n: u16)
    requires
        0 <= p < e <= to <= s.len(),
        s.subrange(p, e) == number_text(n as nat, true),
        e < to ==> s[e] == ':' && spec_hex_groups(s, e + 1, to) is Some,
    ensures
        spec_hex_groups(s, p, to) == Some(
            if e == to {
                seq![n]
            } else {
                seq![n] + spec_hex_groups(s, e + 1, to)->0
            },
        ),
        double_colon(s, e + 1, to) == to && (e < to ==> s[e + 1] != ':') ==> double_colon(
            s,
            p,
            to,
        ) == to,
{
    lemma_field_at(s, p, e, to, true, n as nat);
    if double_colon(s, e + 1, to) == to && (e < to ==> s[e + 1] != ':') {
        assert forall|j: int| p <= j < e implies s[j] != ':' by {
            assert(s.subrange(p, e)[j - p] == s[j]);
        }
        lemma_no_double_colon(s, p, e, to);
    }
}

/// A group begins with a digit, not with a colon.
proof fn lemma_group_start(s: Seq<char>, p: int, e: int, n: u16)
    requires
        0 <= p < e <= s.len(),
        s.subrange(p, e) == number_text(n as nat, true),
    ensures
        s[p] != ':',
{
    lemma_number_text_value(n as nat, true);
    assert(s.subrange(p, e)[0] == s[p]);
    assert(is_hex_digit(number_text(n as nat, true)[0]));
}

/// There is no `::` from `p` on where there is no colon before `e`, none
/// behind the one at `e`, and no `::` behind that.
proof fn lemma_no_double_colon(s: Seq<char>, p: int, e: int, to: int)
    requires
        p <= e <= to,
        forall|j: int| p <= j < e ==> s[j] != ':',
        e < to ==> s[e + 1] != ':',
        double_colon(s, e + 1, to) == to,
    ensures
        double_colon(s, p, to) == to,
    decreases e - p,
{
    if p < e {
        lemma_no_double_colon(s, p + 1, e, to);
    } else {
        reveal_with_fuel(double_colon, 2);
    }
}

/// The groups of an IPv6 address from group `k` on, each behind a colon, and
/// the bracket that closes the literal.
spec fn groups_tail(g: Seq<u16>, k: int) -> Seq<char>
    decreases g.len() - k,
{
    if k >= g.len() {
        seq![']']
    } else {
        sep_number(':', g[k] as nat, true) + groups_tail(g, k + 1)
    }
}

/// Where the colon before group `k` stands, in a literal that begins at
/// `from`. For the number of groups this is where the closing bracket stands.
spec fn colon_at(g: Seq<u16>, from: int, k: int) -> int
    decreases k,
{
    if k <= 0 {
        from + 5
    } else {
        colon_at(g, from, k - 1) + 1 + number_text(g[k - 1] as nat, true).len()
    }
}

/// Group `k` stands in `s` behind its colon.
spec fn is_group_at(s: Seq<char>, g: Seq<u16>, from: int, k: int) -> bool {
    &&& 0 <= colon_at(g, from, k) < colon_at(g, from, k + 1) - 1 < s.len()
    &&& s[colon_at(g, from, k)] == ':'
    &&& s.subrange(colon_at(g, from, k) + 1, colon_at(g, from, k + 1)) == number_text(
        g[k] as nat,
        true,
    )
}

/// Where the eight groups of an IPv6 address stand in `s` as an address
/// literal that begins at `from`, the literal is read as that address.
proof fn lemma_ipv6_fields(s: Seq<char>, g: Seq<u16>, from: int)
    requires
        0 <= from,
        g.len() == 8,
        s[from] == '[',
        s.subrange(from + 1, from + 5) == seq!['I', 'p', 'v', '6'],
        colon_at(g, from, 0) == from + 5,
        is_group_at(s, g, from, 0),
        is_group_at(s, g, from, 1),
        is_group_at(s, g, from, 2),
        is_group_at(s, g, from, 3),
        is_group_at(s, g, from, 4),
        is_group_at(s, g, from, 5),
        is_group_at(s, g, from, 6),
        is_group_at(s, g, from, 7),
        s.len() == colon_at(g, from, 8) + 1,
        s[colon_at(g, from, 8)] == ']',
    ensures
        spec_ip_literal(s, from) == Some(ipv6_of(g)),
{
    let c0 = colon_at(g, from, 0);
    let c1 = colon_at(g, from, 1);
    let c2 = colon_at(g, from, 2);
    let c3 = colon_at(g, from, 3);
    let c4 = colon_at(g, from, 4);
    let c5 = colon_at(g, from, 5);
    let c6 = colon_at(g, from, 6);
    let c7 = colon_at(g, from, 7);
    let to = colon_at(g, from, 8);
    assert(s.subrange(from + 1, from + 6) =~= ipv6_tag()) by {
        let tag = s.subrange(from + 1, from + 5);
        assert(tag[0] == 'I' && tag[1] == 'p' && tag[2] == 'v' && tag[3] == '6');
        assert(tag[0] == s[from + 1] && tag[1] == s[from + 2] && tag[2] == s[from + 3] && tag[3]
            == s[from + 4]);
    }
    assert(double_colon(s, to + 1, to) == to);
    lemma_hex_step(s, c7 + 1, to, to, g[7]);
    lemma_group_start(s, c7 + 1, to, g[7]);
    lemma_hex_step(s, c6 + 1, c7, to, g[6]);
    lemma_group_start(s, c6 + 1, c7, g[6]);
    lemma_hex_step(s, c5 + 1, c6, to, g[5]);
    lemma_group_start(s, c5 + 1, c6, g[5]);
    lemma_hex_step(s, c4 + 1, c5, to, g[4]);
    lemma_group_start(s, c4 + 1, c5, g[4]);
    lemma_hex_step(s, c3 + 1, c4, to, g[3]);
    lemma_group_start(s, c3 + 1, c4, g[3]);
    lemma_hex_step(s, c2 + 1, c3, to, g[2]);
    lemma_group_start(s, c2 + 1, c3, g[2]);
    lemma_hex_step(s, c1 + 1, c2, to, g[1]);
    lemma_group_start(s, c1 + 1, c2, g[1]);
    lemma_hex_step(s, c0 + 1, c1, to, g[0]);
    let all = spec_hex_groups(s, from + 6, to)->0;
    assert(all =~= g);
}

/// The text of an IPv6 address is its opening and its groups.
proof fn lemma_ipv6_text_shape(g: Seq<u16>)
    requires
        g.len() == 8,
    ensures
        ip_text(ipv6_of(g)) == (seq!['['] + seq!['I', 'p', 'v', '6']) + groups_tail(g, 0),
{
    let head = seq!['['] + seq!['I', 'p', 'v', '6'];
    let end = seq![']'];
    let p0 = sep_number(':', g[0] as nat, true);
    let p1 = sep_number(':', g[1] as nat, true);
    let p2 = sep_number(':', g[2] as nat, true);
    let p3 = sep_number(':', g[3] as nat, true);
    let p4 = sep_number(':', g[4] as nat, true);
    let p5 = sep_number(':', g[5] as nat, true);
    let p6 = sep_number(':', g[6] as nat, true);
    let p7 = sep_number(':', g[7] as nat, true);
    let x0 = head + p0;
    let x1 = x0 + p1;
    let x2 = x1 + p2;
    let x3 = x2 + p3;
    let x4 = x3 + p4;
    let x5 = x4 + p5;
    let x6 = x5 + p6;
    assert(groups_tail(g, 8) == end);
    assert(groups_tail(g, 7) == p7 + groups_tail(g, 8));
    assert(groups_tail(g, 6) == p6 + groups_tail(g, 7));
    assert(groups_tail(g, 5) == p5 + groups_tail(g, 6));
    assert(groups_tail(g, 4) == p4 + groups_tail(g, 5));
    assert(groups_tail(g, 3) == p3 + groups_tail(g, 4));
    assert(groups_tail(g, 2) == p2 + groups_tail(g, 3));
    assert(groups_tail(g, 1) == p1 + groups_tail(g, 2));
    assert(groups_tail(g, 0) == p0 + groups_tail(g, 1));
    assert(ip_text(ipv6_of(g)) == x6 + p7 + end);
    lemma_concat_assoc(x6, p7, groups_tail(g, 8));
    lemma_concat_assoc(x5, p6, groups_tail(g, 7));
    lemma_concat_assoc(x4, p5, groups_tail(g, 6));
    lemma_concat_assoc(x3, p4, groups_tail(g, 5));
    lemma_concat_assoc(x2, p3, groups_tail(g, 4));
    lemma_concat_assoc(x1, p2, groups_tail(g, 3));
    lemma_concat_assoc(x0, p1, groups_tail(g, 2));
    lemma_concat_assoc(head, p0, groups_tail(g, 1));
}

/// Where the groups from `k` on stand behind `y`, each of them stands behind
/// its colon, and the closing bracket ends the text.
proof fn lemma_groups_layout(s: Seq<char>, y: Seq<char>, g: Seq<u16>, from: int, k: int)
    requires
        0 <= from,
        0 <= k <= g.len(),
        s == y + groups_tail(g, k),
        y.len() == colon_at(g, from, k),
    ensures
        forall|i: int| k <= i < g.len() ==> #[trigger] is_group_at(s, g, from, i),
        s.len() == colon_at(g, from, g.len() as int) + 1,
        s[colon_at(g, from, g.len() as int)] == ']',
    decreases g.len() - k,
{
    if k < g.len() {
        let t = number_text(g[k] as nat, true);
        let p = sep_number(':', g[k] as nat, true);
        let r = groups_tail(g, k + 1);
        lemma_number_text_len(g[k] as nat, true);
        lemma_concat_assoc(y, p, r);
        lemma_piece(s, y, ':', t, r);
        assert(colon_at(g, from, k + 1) == colon_at(g, from, k) + 1 + t.len());
        lemma_groups_layout(s, y + p, g, from, k + 1);
        assert(is_group_at(s, g, from, k));
    }
}

/// The text of an IPv6 address is read as that address, whatever stands
/// before it.
pub proof fn lemma_ipv6_text(pre: Seq<char>, g: Seq<u16>)
    requires
        g.len() == 8,
    ensures
        spec_ip_literal(pre + ip_text(ipv6_of(g)), pre.len() as int) == Some(ipv6_of(g)),
{
    let head = seq!['['] + seq!['I', 'p', 'v', '6'];
    let s = pre + ip_text(ipv6_of(g));
    let from = pre.len() as int;
    let y = pre + head;
    lemma_ipv6_text_shape(g);
    lemma_concat_assoc(pre, head, groups_tail(g, 0));
    lemma_groups_layout(s, y, g, from, 0);
    assert(s[from] == '[') by {
        assert(y[from] == '[');
    }
    assert(s.subrange(from + 1, from + 5) =~= seq!['I', 'p', 'v', '6']) by {
        assert(y[from + 1] == 'I' && y[from + 2] == 'p' && y[from + 3] == 'v' && y[from + 4]
            == '6');
    }
    lemma_ipv6_fields(s, g, from);
}

/// The text of an address is read as that address, whatever stands before
/// it.
pub proof fn lemma_ip_text(pre: Seq<char>, ip: IpAddr)
    ensures
        spec_ip_literal(pre + ip_text(ip), pre.len() as int) == Some(ip),
        ip_text(ip).len() > 0,
        ip_text(ip)[0] == '[',
{
    match ip {
        IpAddr::Ipv4Addr(a, b, c, d) => {
            lemma_ipv4_text(pre, a, b, c, d);
            lemma_ipv4_text_shape(a, b, c, d);
        },
        IpAddr::Ipv6Addr(a, b, c, d, e, f, g, h) => {
            let groups = seq![a, b, c, d, e, f, g, h];
            lemma_ipv6_text(pre, groups);
            lemma_ipv6_text_shape(groups);
        },
    }
}

} // verus!
