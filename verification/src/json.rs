//! JSON string literals, as `serde_json` writes them.

use vstd::prelude::*;
use crate::text::hex_char;

verus! {

/// How `serde_json` writes one character inside a string literal: `"` and `\`
/// behind a backslash; backspace, form feed, line feed, carriage return and tab
/// as `\b`, `\f`, `\n`, `\r`, `\t`; the other characters below U+0020 as `\u00`
/// and two lowercase hexadecimal digits; every other character as itself.
pub open spec fn json_escape(c: char) -> Seq<char> {
    let u = c as u32;
    if c == '"' {
        seq!['\\', '"']
    } else if c == '\\' {
        seq!['\\', '\\']
    } else if u == 0x8 {
        seq!['\\', 'b']
    } else if u == 0xc {
        seq!['\\', 'f']
    } else if u == 0xa {
        seq!['\\', 'n']
    } else if u == 0xd {
        seq!['\\', 'r']
    } else if u == 0x9 {
        seq!['\\', 't']
    } else if u < 0x20 {
        seq!['\\', 'u', '0', '0', hex_char((u / 16) as int), hex_char((u % 16) as int)]
    } else {
        seq![c]
    }
}

/// The characters of a string, each escaped as `serde_json` escapes it.
pub open spec fn json_escaped(s: Seq<char>) -> Seq<char>
    decreases s.len(),
{
    if s.len() == 0 {
        seq![]
    } else {
        json_escaped(s.drop_last()) + json_escape(s.last())
    }
}

/// A string written as a JSON string literal: the escaped characters between
/// double quotes.
pub open spec fn json_string(s: Seq<char>) -> Seq<char> {
    seq!['"'] + json_escaped(s) + seq!['"']
}

/// The value of a hexadecimal digit, either case; -1 for any other character.
pub open spec fn hex_value(c: char) -> int {
    if '0' <= c <= '9' {
        c as int - '0' as int
    } else if 'a' <= c <= 'f' {
        c as int - 'a' as int + 10
    } else if 'A' <= c <= 'F' {
        c as int - 'A' as int + 10
    } else {
        -1
    }
}

/// The character a `\u` escape names by its four hexadecimal digits, when they
/// are digits and name a character on their own (not half of a surrogate
/// pair).
pub open spec fn unicode_escape_char(t: Seq<char>) -> Option<char> {
    let v = 4096 * hex_value(t[2]) + 256 * hex_value(t[3]) + 16 * hex_value(t[4]) + hex_value(t[5]);
    if hex_value(t[2]) >= 0 && hex_value(t[3]) >= 0 && hex_value(t[4]) >= 0 && hex_value(t[5]) >= 0
        && (v < 0xD800 || v >= 0xE000) {
        Some(v as char)
    } else {
        None
    }
}

/// How a JSON reader takes the first character of the inside of a string
/// literal: an escape (`\"`, `\\`, `\/`, `\b`, `\f`, `\n`, `\r`, `\t`, or `\u`
/// with four hexadecimal digits) or a character as itself, with the number of
/// characters it took. `None` for a bad escape, a raw control character, or
/// the closing quote.
pub open spec fn json_read_char(t: Seq<char>) -> Option<(char, int)> {
    if t.len() == 0 || t[0] == '"' {
        None
    } else if t[0] == '\\' {
        if t.len() < 2 {
            None
        } else if t[1] == '"' {
            Some(('"', 2))
        } else if t[1] == '\\' {
            Some(('\\', 2))
        } else if t[1] == '/' {
            Some(('/', 2))
        } else if t[1] == 'b' {
            Some(('\x08', 2))
        } else if t[1] == 'f' {
            Some(('\x0c', 2))
        } else if t[1] == 'n' {
            Some(('\n', 2))
        } else if t[1] == 'r' {
            Some(('\r', 2))
        } else if t[1] == 't' {
            Some(('\t', 2))
        } else if t[1] == 'u' && t.len() >= 6 {
            match unicode_escape_char(t) {
                Some(c) => Some((c, 6)),
                None => None,
            }
        } else {
            None
        }
    } else if (t[0] as u32) < 0x20 {
        None
    } else {
        Some((t[0], 1))
    }
}

/// How a JSON reader reads the inside of a string literal, from just after its
/// opening quote: the characters up to the closing quote, and where that quote
/// stands; `None` when the text breaks off or holds a bad character first.
pub open spec fn json_string_read(t: Seq<char>) -> Option<(Seq<char>, int)>
    decreases t.len(),
{
    if t.len() == 0 {
        None
    } else if t[0] == '"' {
        Some((Seq::<char>::empty(), 0))
    } else {
        match json_read_char(t) {
            Some((c, n)) => if 0 < n <= t.len() {
                match json_string_read(t.subrange(n, t.len() as int)) {
                    Some((s, k)) => Some((seq![c] + s, k + n)),
                    None => None,
                }
            } else {
                None
            },
            None => None,
        }
    }
}

proof fn lemma_hex_value_of_digit(d: int)
    requires
        0 <= d < 16,
    ensures
        hex_value(hex_char(d)) == d,
{
}

proof fn lemma_read_one_escape(c: char, rest: Seq<char>)
    ensures
        json_escape(c).len() > 0,
        json_escape(c)[0] != '"',
        json_read_char(json_escape(c) + rest) == Some((c, json_escape(c).len() as int)),
{
    let u = c as u32;
    let t = json_escape(c) + rest;
    if c == '"' || c == '\\' || u == 0x8 || u == 0xc || u == 0xa || u == 0xd || u == 0x9 {
        assert(t[0] == '\\');
        assert(t[1] == json_escape(c)[1]);
    } else if u < 0x20 {
        let hi = (u / 16) as int;
        let lo = (u % 16) as int;
        lemma_hex_value_of_digit(hi);
        lemma_hex_value_of_digit(lo);
        assert(t[0] == '\\' && t[1] == 'u' && t[2] == '0' && t[3] == '0');
        assert(t[4] == hex_char(hi) && t[5] == hex_char(lo));
        assert(hex_value('0') == 0);
        assert(16 * hi + lo == u);
        assert(unicode_escape_char(t) == Some(c));
    } else {
        assert(t[0] == c);
    }
}

proof fn lemma_escaped_front(s: Seq<char>)
    requires
        s.len() > 0,
    ensures
        json_escaped(s) == json_escape(s[0]) + json_escaped(s.drop_first()),
    decreases s.len(),
{
    if s.len() == 1 {
        assert(s.drop_last().len() == 0);
        assert(s.drop_first().len() == 0);
        assert(json_escaped(s) =~= json_escape(s[0]) + json_escaped(s.drop_first()));
    } else {
        lemma_escaped_front(s.drop_last());
        assert(s.drop_last()[0] == s[0]);
        assert(s.drop_last().drop_first() =~= s.drop_first().drop_last());
        assert(s.drop_first().last() == s.last());
        assert(json_escaped(s.drop_first()) == json_escaped(s.drop_first().drop_last()) + json_escape(
            s.drop_first().last(),
        ));
        assert(json_escaped(s) == json_escaped(s.drop_last()) + json_escape(s.last()));
        assert(json_escaped(s) =~= json_escape(s[0]) + json_escaped(s.drop_first()));
    }
}

/// Law: a JSON reader reads back exactly the characters of an escaped string:
/// reading the inside of a string literal written by `json_escaped`, up to the
/// quote that closes it, gives the string itself, and the quote stands right
/// after the escaped characters, whatever follows it.
pub proof fn json_escaped_reads_back(s: Seq<char>, tail: Seq<char>)
    ensures
        json_string_read(json_escaped(s) + seq!['"'] + tail) == Some((s, json_escaped(s).len() as int)),
    decreases s.len(),
{
    let t = json_escaped(s) + seq!['"'] + tail;
    if s.len() == 0 {
        assert(t[0] == '"');
    } else {
        lemma_escaped_front(s);
        let e = json_escape(s[0]);
        let r = json_escaped(s.drop_first()) + seq!['"'] + tail;
        lemma_read_one_escape(s[0], r);
        assert(t =~= e + r);
        assert(t[0] == e[0]);
        assert(t.subrange(e.len() as int, t.len() as int) =~= r);
        json_escaped_reads_back(s.drop_first(), tail);
        assert(seq![s[0]] + s.drop_first() =~= s);
    }
}

/// Law: escaping loses nothing: two strings that escape alike are the same
/// string.
pub proof fn json_escaped_is_injective(a: Seq<char>, b: Seq<char>)
    requires
        json_escaped(a) == json_escaped(b),
    ensures
        a == b,
{
    json_escaped_reads_back(a, Seq::empty());
    json_escaped_reads_back(b, Seq::empty());
}

/// `serde_json::Error`, carried through opaquely.
#[verifier::external_type_specification]
#[verifier::external_body]
pub struct ExJsonError(serde_json::Error);

/// `serde_json::to_string` on a string slice. Its source writes the slice as a
/// quoted literal, escaping byte by byte from its `ESCAPE` table; writing a
/// `str` into a `String` has no way to fail, so `Ok` is stated too.
#[verifier::external_body]
fn json_to_string(s: &str) -> (r: Result<String, serde_json::Error>)
    ensures
        r is Ok,
        r matches Ok(t) ==> t@ == json_string(s@),
{
    serde_json::to_string(s)
}

/// A string written as a JSON string literal.
pub fn json_quote(s: &str) -> (r: String)
    ensures
        r@ == json_string(s@),
{
    match json_to_string(s) {
        Ok(t) => t,
        Err(_) => String::new(),
    }
}

} // verus!
