//! Reading the characters of a string through its UTF-8 bytes.
//!
//! A scanner that only ever steps over ASCII characters can index the bytes of a
//! string directly: as long as every character before a position is ASCII, the
//! byte at that position is the first byte of the character at that position.

use vstd::prelude::*;
use vstd::string::*;
use vstd::utf8::*;

verus! {

/// The character lies in the 7-bit ASCII range.
pub open spec fn is_ascii_char(c: char) -> bool {
    '\0' <= c <= '\u{7f}'
}

/// Every character of `cs` before position `n` is ASCII.
pub open spec fn ascii_upto(cs: Seq<char>, n: int) -> bool {
    &&& 0 <= n <= cs.len()
    &&& forall|i: int| 0 <= i < n ==> is_ascii_char(#[trigger] cs[i])
}

proof fn lemma_first_byte(c: char)
    ensures
        encode_scalar(c as u32).len() >= 1,
        is_ascii_char(c) ==> encode_scalar(c as u32) == seq![c as u8],
        !is_ascii_char(c) ==> encode_scalar(c as u32)[0] >= 0x80,
{
    let v = c as u32;
    char_is_scalar(c);
    if has_width_1_encoding(v) {
        assert(v as u8 == leading_byte_width_1(v)) by (bit_vector)
            requires
                has_width_1_encoding(v),
        ;
    } else if has_width_2_encoding(v) {
        assert(leading_byte_width_2(v) >= 0x80) by (bit_vector);
    } else if has_width_3_encoding(v) {
        assert(leading_byte_width_3(v) >= 0x80) by (bit_vector);
    } else {
        assert(leading_byte_width_4(v) >= 0x80) by (bit_vector);
    }
}

/// While the first `n` characters are ASCII, bytes and characters run in step:
/// the first `n` bytes are those characters, the bytes end where the characters
/// end, and the next byte tells whether the next character is ASCII.
pub proof fn lemma_ascii_prefix_bytes(cs: Seq<char>, n: int)
    requires
        ascii_upto(cs, n),
    ensures
        n <= encode_utf8(cs).len(),
        forall|i: int| 0 <= i < n ==> #[trigger] encode_utf8(cs)[i] == cs[i] as u8,
        n == cs.len() <==> n == encode_utf8(cs).len(),
        n < cs.len() && is_ascii_char(cs[n]) ==> encode_utf8(cs)[n] == cs[n] as u8,
        n < cs.len() && !is_ascii_char(cs[n]) ==> encode_utf8(cs)[n] >= 0x80,
    decreases n,
{
    if cs.len() == 0 {
    } else {
        lemma_first_byte(cs[0]);
        let head = encode_scalar(cs[0] as u32);
        let rest = cs.drop_first();
        assert(encode_utf8(cs) == head + encode_utf8(rest));
        if n > 0 {
            assert(ascii_upto(rest, n - 1)) by {
                assert forall|i: int| 0 <= i < n - 1 implies is_ascii_char(#[trigger] rest[i]) by {
                    assert(rest[i] == cs[i + 1]);
                }
            }
            lemma_ascii_prefix_bytes(rest, n - 1);
            assert forall|i: int| 0 <= i < n implies #[trigger] encode_utf8(cs)[i] == cs[i] as u8 by {
                if i > 0 {
                    assert(encode_utf8(cs)[i] == encode_utf8(rest)[i - 1]);
                    assert(rest[i - 1] == cs[i]);
                }
            }
            if n < cs.len() {
                assert(rest[n - 1] == cs[n]);
                assert(encode_utf8(cs)[n] == encode_utf8(rest)[n - 1]);
            }
        }
    }
}

/// A whole string of ASCII characters.
pub proof fn lemma_ascii_upto_all(cs: Seq<char>)
    requires
        ascii_upto(cs, cs.len() as int),
    ensures
        is_ascii_chars(cs),
{
    assert forall|i: int| 0 <= i < cs.len() implies '\0' <= #[trigger] cs[i] <= '\u{7f}' by {
        assert(is_ascii_char(cs[i]));
    }
}

/// A string seen through its bytes.
pub struct Text<'a> {
    bytes: &'a [u8],
    chars: Ghost<Seq<char>>,
}

impl<'a> Text<'a> {
    /// The characters of the string.
    pub closed spec fn view(&self) -> Seq<char> {
        self.chars@
    }

    /// The bytes held are the UTF-8 encoding of the characters.
    pub closed spec fn wf(&self) -> bool {
        &&& self.bytes@ == encode_utf8(self.chars@)
        &&& self.bytes@.len() <= usize::MAX
    }

    /// Every position in the string is a `usize`.
    pub proof fn lemma_bounded(&self)
        requires
            self.wf(),
        ensures
            self@.len() <= usize::MAX,
    {
        lemma_chars_no_longer_than_bytes(self@);
    }

    /// Sees a string through its bytes.
    pub fn new(s: &'a str) -> (t: Self)
        ensures
            t.wf(),
            t@ == s@,
    {
        let bytes = s.as_bytes();
        assert(bytes@.len() == vstd::slice::spec_slice_len(bytes));
        Text { bytes, chars: Ghost(s@) }
    }

    /// The length of a string of ASCII characters.
    pub fn len_ascii(&self) -> (n: usize)
        requires
            self.wf(),
            ascii_upto(self@, self@.len() as int),
        ensures
            n == self@.len(),
    {
        proof {
            lemma_ascii_prefix_bytes(self@, self@.len() as int);
        }
        self.bytes.len()
    }

    /// Whether position `i` is the end of the string, given that all before it is ASCII.
    pub fn at_end(&self, i: usize) -> (b: bool)
        requires
            self.wf(),
            ascii_upto(self@, i as int),
        ensures
            b == (i == self@.len()),
    {
        proof {
            lemma_ascii_prefix_bytes(self@, i as int);
        }
        i >= self.bytes.len()
    }

    /// The character at position `i`, given that all before it is ASCII. For a
    /// character outside ASCII, some character outside ASCII is returned.
    pub fn get(&self, i: usize) -> (c: char)
        requires
            self.wf(),
            ascii_upto(self@, i as int),
            i < self@.len(),
        ensures
            c == self@[i as int] || (!is_ascii_char(c) && !is_ascii_char(self@[i as int])),
    {
        proof {
            lemma_ascii_prefix_bytes(self@, i as int);
        }
        let x: u8 = self.bytes[i];
        let c: char = x as char;
        proof {
            let d = self@[i as int];
            if is_ascii_char(d) {
                assert(x == d as u8);
                assert(d as u32 == x as u32);
                assert(c as u32 == x as u32);
                char_u32_cast(d, x as u32);
                char_u32_cast(c, x as u32);
            } else {
                assert(x >= 0x80);
                assert(c as u32 == x as u32);
            }
        }
        c
    }
}

proof fn lemma_chars_no_longer_than_bytes(cs: Seq<char>)
    ensures
        cs.len() <= encode_utf8(cs).len(),
    decreases cs.len(),
{
    if cs.len() > 0 {
        lemma_first_byte(cs[0]);
        lemma_chars_no_longer_than_bytes(cs.drop_first());
    }
}

/// Appends the character at position `i` of an ASCII string to `out`.
pub fn push_char_at(out: &mut String, s: &str, i: usize)
    requires
        is_ascii_chars(s@),
        i < s@.len(),
    ensures
        final(out)@ == old(out)@.push(s@[i as int]),
{
    proof {
        is_ascii_spec_bytes(s);
    }
    let bytes = s.as_bytes();
    assert(i < bytes.len());
    let piece = s.substring_ascii(i, i + 1);
    assert(piece@ == seq![s@[i as int]]);
    out.append(piece);
    assert(old(out)@ + seq![s@[i as int]] == old(out)@.push(s@[i as int]));
}

/// The lower-case letter for an upper-case ASCII letter, and any other
/// character unchanged.
pub open spec fn spec_ascii_lower(c: char) -> char {
    if 'A' <= c <= 'Z' {
        ((c as u8 + 32) as u8) as char
    } else {
        c
    }
}

/// Folds an upper-case ASCII letter to lower case.
#[verifier::when_used_as_spec(spec_ascii_lower)]
pub fn ascii_lower(c: char) -> (l: char)
    ensures
        l == spec_ascii_lower(c),
{
    match c {
        'A'..='Z' => ((c as u8) + 32) as char,
        _ => c,
    }
}

/// The two texts are the same but for the case of their ASCII letters.
pub open spec fn spec_eq_ignore_ascii_case(a: Seq<char>, b: Seq<char>) -> bool {
    &&& a.len() == b.len()
    &&& forall|i: int| 0 <= i < a.len() ==> spec_ascii_lower(#[trigger] a[i]) == spec_ascii_lower(b[i])
}

/// The text begins with the prefix, but for the case of ASCII letters.
pub open spec fn spec_starts_with_ignore_ascii_case(s: Seq<char>, prefix: Seq<char>) -> bool {
    &&& prefix.len() <= s.len()
    &&& spec_eq_ignore_ascii_case(s.take(prefix.len() as int), prefix)
}

/// Whether the text begins with the prefix, but for the case of ASCII
/// letters. Returns the length of the prefix in characters where it does.
pub fn starts_with_ignore_ascii_case(s: &str, prefix: &str) -> (res: Option<usize>)
    ensures
        match res {
            Some(n) => n == prefix@.len() && spec_starts_with_ignore_ascii_case(s@, prefix@),
            None => !spec_starts_with_ignore_ascii_case(s@, prefix@),
        },
{
    let n = prefix.unicode_len();
    if s.unicode_len() < n {
        return None;
    }
    let ghost head = s@.take(n as int);
    let mut i: usize = 0;
    while i < n
        invariant
            n == prefix@.len(),
            n <= s@.len(),
            head == s@.take(n as int),
            i <= n,
            forall|j: int| 0 <= j < i ==> spec_ascii_lower(#[trigger] head[j]) == spec_ascii_lower(prefix@[j]),
        decreases n - i,
    {
        if ascii_lower(s.get_char(i)) != ascii_lower(prefix.get_char(i)) {
            assert(head[i as int] == s@[i as int]);
            return None;
        }
        assert(head[i as int] == s@[i as int]);
        i += 1;
    }
    Some(n)
}

/// Whether the two texts are the same but for the case of their ASCII
/// letters.
pub fn eq_ignore_ascii_case(a: &str, b: &str) -> (res: bool)
    ensures
        res == spec_eq_ignore_ascii_case(a@, b@),
{
    let n = a.unicode_len();
    if n != b.unicode_len() {
        return false;
    }
    assert(a@.take(n as int) == a@);
    starts_with_ignore_ascii_case(a, b).is_some()
}

/// The digits of the bases up to sixteen.
pub open spec fn digits() -> Seq<char> {
    seq!['0', '1', '2', '3', '4', '5', '6', '7', '8', '9', 'a', 'b', 'c', 'd', 'e', 'f']
}

/// The number in decimal, or in hexadecimal with lower-case letters, without
/// leading zeros.
pub open spec fn number_text(n: nat, hex: bool) -> Seq<char>
    decreases n,
{
    if hex {
        if n < 16 {
            seq![digits()[n as int]]
        } else {
            number_text(n / 16, hex).push(digits()[(n % 16) as int])
        }
    } else {
        if n < 10 {
            seq![digits()[n as int]]
        } else {
            number_text(n / 10, hex).push(digits()[(n % 10) as int])
        }
    }
}

/// The number in decimal.
pub open spec fn decimal_text(n: nat) -> Seq<char> {
    number_text(n, false)
}

/// Appends the number to `out`, in decimal or in hexadecimal.
pub fn append_number(out: &mut String, n: usize, hex: bool)
    ensures
        final(out)@ == old(out)@ + number_text(n as nat, hex),
    decreases n,
{
    let table = "0123456789abcdef";
    let base: usize = if hex {
        16
    } else {
        10
    };
    proof {
        reveal_strlit("0123456789abcdef");
        assert(table@ =~= digits());
        lemma_ascii_upto_all(table@);
    }
    if n >= base {
        append_number(out, n / base, hex);
    }
    let ghost mid = out@;
    push_char_at(out, table, n % base);
    proof {
        if n >= base {
            assert(mid.push(digits()[(n % base) as int]) == old(out)@ + number_text(
                n as nat,
                hex,
            ));
        } else {
            assert(mid.push(digits()[n as int]) == old(out)@ + seq![digits()[n as int]]);
        }
    }
}

} // verus!
