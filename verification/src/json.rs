//! JSON text of strings (`serde_json`), and reading such text back.
use vstd::prelude::*;

verus! {

/// The lowercase hexadecimal digit of `n` (`0 <= n < 16`).
pub open spec fn hex_digit(n: int) -> char {
    seq!['0', '1', '2', '3', '4', '5', '6', '7', '8', '9', 'a', 'b', 'c', 'd', 'e', 'f'][n]
}

/// How `serde_json` writes the character `c` inside a string literal: `"`
/// and `\` behind a backslash; backspace, tab, line feed, form feed and
/// carriage return as `\b \t \n \f \r`; the other characters below U+0020 as
/// `\u00` and two lowercase hexadecimal digits; every other character as is.
pub open spec fn escaped_char(c: char) -> Seq<char> {
    let n = c as int;
    if c == '"' {
        seq!['\\', '"']
    } else if c == '\\' {
        seq!['\\', '\\']
    } else if n == 0x08 {
        seq!['\\', 'b']
    } else if n == 0x09 {
        seq!['\\', 't']
    } else if n == 0x0a {
        seq!['\\', 'n']
    } else if n == 0x0c {
        seq!['\\', 'f']
    } else if n == 0x0d {
        seq!['\\', 'r']
    } else if n < 0x20 {
        seq!['\\', 'u', '0', '0', hex_digit(n / 16), hex_digit(n % 16)]
    } else {
        seq![c]
    }
}

/// The characters of `s`, each written as `escaped_char` writes it.
pub open spec fn escaped(s: Seq<char>) -> Seq<char>
    decreases s.len(),
{
    if s.len() == 0 {
        Seq::empty()
    } else {
        escaped_char(s[0]) + escaped(s.drop_first())
    }
}

/// The JSON text that `serde_json` writes for the string `s`: `s` escaped,
/// between double quotes.
pub open spec fn json_string(s: Seq<char>) -> Seq<char> {
    seq!['"'] + escaped(s) + seq!['"']
}

/// The JSON string literal for `s` (`serde_json::to_string` on a `str`).
/// Serializing a `str` into memory cannot fail; the empty fallback is never
/// taken.
#[verifier::external_body]
pub fn quote_json(s: &str) -> (r: String)
    ensures
        r@ == json_string(s@),
{
    serde_json::to_string(s).unwrap_or_default()
}

/// The value of the hexadecimal digit `c`, either case.
pub open spec fn hex_value(c: char) -> Option<int> {
    let n = c as int;
    if 0x30 <= n <= 0x39 {
        Some(n - 0x30)
    } else if 0x61 <= n <= 0x66 {
        Some(n - 0x61 + 10)
    } else if 0x41 <= n <= 0x46 {
        Some(n - 0x41 + 10)
    } else {
        None
    }
}

/// The number written by the four hexadecimal digits of `t` from `i` on.
pub open spec fn hex4(t: Seq<char>, i: int) -> Option<int> {
    if i + 4 > t.len() {
        None
    } else {
        match (hex_value(t[i]), hex_value(t[i + 1]), hex_value(t[i + 2]), hex_value(t[i + 3])) {
            (Some(a), Some(b), Some(c), Some(d)) => Some(((a * 16 + b) * 16 + c) * 16 + d),
            _ => None,
        }
    }
}

/// The character that the one-letter escape `\e` stands for in a JSON string.
pub open spec fn simple_escape(e: char) -> Option<char> {
    if e == '"' {
        Some('"')
    } else if e == '\\' {
        Some('\\')
    } else if e == '/' {
        Some('/')
    } else if e == 'b' {
        Some(0x08u8 as char)
    } else if e == 'f' {
        Some(0x0cu8 as char)
    } else if e == 'n' {
        Some('\n')
    } else if e == 'r' {
        Some('\r')
    } else if e == 't' {
        Some('\t')
    } else {
        None
    }
}

/// `c` in front of the value of a read string, the rest left as it is.
pub open spec fn with_first(c: char, read: Option<(Seq<char>, Seq<char>)>) -> Option<
    (Seq<char>, Seq<char>),
> {
    match read {
        Some((v, rest)) => Some((seq![c] + v, rest)),
        None => None,
    }
}

/// Reads the rest of a JSON string literal whose opening quote is already
/// read: the string's value and the text after its closing quote, or `None`
/// where `t` holds no well-formed rest of a literal (a raw control character,
/// an unknown escape, a lone UTF-16 surrogate, no closing quote).
pub open spec fn read_string(t: Seq<char>) -> Option<(Seq<char>, Seq<char>)>
    decreases t.len(),
{
    if t.len() == 0 {
        None
    } else if t[0] == '"' {
        Some((Seq::empty(), t.drop_first()))
    } else if t[0] == '\\' {
        if t.len() < 2 {
            None
        } else if t[1] == 'u' {
            if t.len() < 6 {
                None
            } else {
                match hex4(t, 2) {
                    None => None,
                    Some(n) => if 0xdc00 <= n <= 0xdfff {
                        None
                    } else if 0xd800 <= n <= 0xdbff {
                        if t.len() >= 12 && t[6] == '\\' && t[7] == 'u' {
                            match hex4(t, 8) {
                                Some(m) => if 0xdc00 <= m <= 0xdfff {
                                    with_first(
                                        (0x10000 + (n - 0xd800) * 0x400 + (m - 0xdc00)) as char,
                                        read_string(t.subrange(12, t.len() as int)),
                                    )
                                } else {
                                    None
                                },
                                None => None,
                            }
                        } else {
                            None
                        }
                    } else {
                        with_first(n as char, read_string(t.subrange(6, t.len() as int)))
                    },
                }
            }
        } else {
            match simple_escape(t[1]) {
                Some(c) => with_first(c, read_string(t.subrange(2, t.len() as int))),
                None => None,
            }
        }
    } else if (t[0] as int) < 0x20 {
        None
    } else {
        with_first(t[0], read_string(t.drop_first()))
    }
}

/// The string that the JSON text `t` holds, where `t` is exactly one string
/// literal.
pub open spec fn read_json_string(t: Seq<char>) -> Option<Seq<char>> {
    if t.len() > 0 && t[0] == '"' {
        match read_string(t.drop_first()) {
            Some((v, rest)) => if rest.len() == 0 {
                Some(v)
            } else {
                None
            },
            None => None,
        }
    } else {
        None
    }
}

/// The one member of the JSON object `t` written without white space, as
/// `{"key":"value"}`: its key and its string value.
pub open spec fn read_one_member_object(t: Seq<char>) -> Option<(Seq<char>, Seq<char>)> {
    if t.len() >= 2 && t[0] == '{' && t[1] == '"' {
        match read_string(t.skip(2)) {
            Some((key, after_key)) => if after_key.len() >= 2 && after_key[0] == ':'
                && after_key[1] == '"' {
                match read_string(after_key.skip(2)) {
                    Some((value, after_value)) => if after_value =~= seq!['}'] {
                        Some((key, value))
                    } else {
                        None
                    },
                    None => None,
                }
            } else {
                None
            },
            None => None,
        }
    } else {
        None
    }
}

proof fn lemma_read_escaped_char(c: char, u: Seq<char>)
    ensures
        read_string(escaped_char(c) + u) == with_first(c, read_string(u)),
{
    let t = escaped_char(c) + u;
    let n = c as int;
    if c == '"' || c == '\\' || n == 0x08 || n == 0x09 || n == 0x0a || n == 0x0c || n == 0x0d {
        assert(t.subrange(2, t.len() as int) =~= u);
        assert(t[0] == '\\');
        if n == 0x08 {
            assert(c == 0x08u8 as char);
        }
        if n == 0x0c {
            assert(c == 0x0cu8 as char);
        }
    } else if n < 0x20 {
        let hi = n / 16;
        let lo = n % 16;
        assert(t.subrange(6, t.len() as int) =~= u);
        assert(t[0] == '\\' && t[1] == 'u' && t[2] == '0' && t[3] == '0');
        assert(t[4] == hex_digit(hi) && t[5] == hex_digit(lo));
        assert(hex_value(hex_digit(hi)) == Some(hi));
        assert(hex_value(hex_digit(lo)) == Some(lo));
        assert(hex4(t, 2) == Some(n));
        assert(n as char == c);
    } else {
        assert(t.drop_first() =~= u);
    }
}

/// Reading back what `serde_json` writes for `s`, followed by the closing
/// quote and any text `rest`, gives `s` and `rest`.
pub proof fn lemma_read_escaped(s: Seq<char>, rest: Seq<char>)
    ensures
        read_string(escaped(s) + seq!['"'] + rest) == Some((s, rest)),
    decreases s.len(),
{
    if s.len() == 0 {
        let t = escaped(s) + seq!['"'] + rest;
        assert(t =~= seq!['"'] + rest);
        assert(t.drop_first() =~= rest);
    } else {
        let tail = escaped(s.drop_first()) + seq!['"'] + rest;
        lemma_read_escaped(s.drop_first(), rest);
        lemma_read_escaped_char(s[0], tail);
        assert(escaped(s) + seq!['"'] + rest =~= escaped_char(s[0]) + tail);
        assert(seq![s[0]] + s.drop_first() =~= s);
    }
}

/// A string without quotes, backslashes or control characters is written as
/// it is.
pub proof fn lemma_plain_escaped(s: Seq<char>)
    requires
        forall|i: int|
            0 <= i < s.len() ==> #[trigger] s[i] != '"' && s[i] != '\\' && (s[i] as int) >= 0x20,
    ensures
        escaped(s) == s,
    decreases s.len(),
{
    if s.len() > 0 {
        lemma_plain_escaped(s.drop_first());
        assert(seq![s[0]] + s.drop_first() =~= s);
    }
}

/// What `serde_json` writes for a string reads back as that string.
pub proof fn lemma_json_string_round_trip(s: Seq<char>)
    ensures
        read_json_string(json_string(s)) == Some(s),
{
    lemma_read_escaped(s, Seq::empty());
    assert(json_string(s).drop_first() =~= escaped(s) + seq!['"'] + Seq::<char>::empty());
}

} // verus!
