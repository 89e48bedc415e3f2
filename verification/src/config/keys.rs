//! Key specifications such as `"ctrl+shift+a"` and the tables that map keys to
//! action names.

use vstd::prelude::*;

use crate::input::{KeyCode, KeyModifiers};
use crate::text::{decimal, digit, chars_of, find_char_in, index_of, push_str, seq_eq, string_of_range, trim, trim_bounds};

verus! {

/// Configuration error types.
#[derive(Debug, Clone, PartialEq, Eq)]
pub enum ConfigError {
    /// A key specification that does not parse, with the offending text.
    InvalidKey(String),
    /// The configuration file is not valid TOML for it, with the reason.
    ParseError(String),
    /// The configuration file could not be read, with the reason.
    IoError(String),
}

impl ConfigError {
    /// The error as text.
    pub fn message(&self) -> (s: String)
        ensures
            self matches ConfigError::InvalidKey(k) ==> s@ == "Invalid key specification: "@ + k@,
            self matches ConfigError::ParseError(m) ==> s@ == "Failed to parse config file: "@ + m@,
            self matches ConfigError::IoError(m) ==> s@ == "Failed to read config file: "@ + m@,
    {
        let mut s = String::new();
        match self {
            ConfigError::InvalidKey(k) => {
                push_str(&mut s, "Invalid key specification: ");
                push_str(&mut s, k.as_str());
            },
            ConfigError::ParseError(m) => {
                push_str(&mut s, "Failed to parse config file: ");
                push_str(&mut s, m.as_str());
            },
            ConfigError::IoError(m) => {
                push_str(&mut s, "Failed to read config file: ");
                push_str(&mut s, m.as_str());
            },
        }
        s
    }
}

/// The lowercase form of a string under Unicode's rules.
pub uninterp spec fn lowercase(s: Seq<char>) -> Seq<char>;

/// Whether every character is ASCII.
pub open spec fn all_ascii(s: Seq<char>) -> bool {
    forall|i: int| 0 <= i < s.len() ==> (#[trigger] s[i] as u32) < 128
}

/// `str::to_lowercase`: the lowercase equivalent of `s`, by Unicode's
/// lowercase mapping; the result is named `lowercase(s)`. On ASCII text that
/// mapping makes `A`–`Z` small and keeps every other character.
#[verifier::external_body]
fn to_lowercase(s: &str) -> (r: String)
    ensures
        r@ == lowercase(s@),
        all_ascii(s@) ==> r@ == s@.map_values(|c: char| ascii_lower(c)),
{
    s.to_lowercase()
}

/// The pieces of `s` between the separators `c` (one more than there are
/// separators).
pub open spec fn split_on(s: Seq<char>, c: char) -> Seq<Seq<char>>
    decreases s.len(),
{
    let i = index_of(s, c);
    if 0 <= i < s.len() {
        seq![s.take(i)] + split_on(s.skip(i + 1), c)
    } else {
        seq![s]
    }
}

/// The modifier bit a key-specification word names, if it names one.
pub open spec fn modifier_word(w: Seq<char>) -> Option<u8> {
    if w == "ctrl"@ || w == "control"@ {
        Some(KeyModifiers::CONTROL)
    } else if w == "alt"@ || w == "option"@ {
        Some(KeyModifiers::ALT)
    } else if w == "shift"@ {
        Some(KeyModifiers::SHIFT)
    } else if w == "super"@ || w == "cmd"@ || w == "win"@ || w == "meta"@ {
        Some(KeyModifiers::SUPER)
    } else {
        None
    }
}

/// Reading the words of a key specification in order: modifier words add
/// their bit; any other word is the key, which must be the only one and not
/// empty. `None` when the words are not acceptable.
pub open spec fn read_words(words: Seq<Seq<char>>) -> Option<(u8, Option<Seq<char>>)>
    decreases words.len(),
{
    if words.len() == 0 {
        Some((0u8, None))
    } else {
        match read_words(words.drop_last()) {
            None => None,
            Some((mods, key)) => {
                let w = words.last();
                match modifier_word(w) {
                    Some(bit) => Some(((mods | bit) as u8, key)),
                    None => if w.len() == 0 || key is Some {
                        None
                    } else {
                        Some((mods, Some(w)))
                    },
                }
            },
        }
    }
}

/// Once the words read so far are not acceptable, no further words make them so.
proof fn lemma_read_words_none(p: Seq<Seq<char>>, q: Seq<Seq<char>>)
    requires
        read_words(p) is None,
    ensures
        read_words(p + q) is None,
    decreases q.len(),
{
    if q.len() == 0 {
        assert(p + q =~= p);
    } else {
        lemma_read_words_none(p, q.drop_last());
        assert((p + q).drop_last() =~= p + q.drop_last());
    }
}

/// Whether `c` is an ASCII digit.
pub open spec fn is_digit(c: char) -> bool {
    '0' <= c <= '9'
}

/// The value of a string of decimal digits.
pub open spec fn digits_value(s: Seq<char>) -> int
    decreases s.len(),
{
    if s.len() == 0 {
        0
    } else {
        digits_value(s.drop_last()) * 10 + (s.last() as int - '0' as int)
    }
}

/// Whether every character is an ASCII digit.
pub open spec fn all_digits(d: Seq<char>) -> bool {
    forall|i: int| 0 <= i < d.len() ==> is_digit(#[trigger] d[i])
}

/// `u8`'s parse of a string: an optional `+` and then one or more ASCII
/// digits with a value that fits.
pub open spec fn parse_u8(s: Seq<char>) -> Option<u8> {
    let d = if s.len() > 0 && s[0] == '+' { s.skip(1) } else { s };
    if d.len() > 0 && all_digits(d) && digits_value(d) <= 255 {
        Some(digits_value(d) as u8)
    } else {
        None
    }
}

/// The key a key word names: a special key's name, a function key `f1` to
/// `f24`, a single ASCII character, or a spelled-out symbol.
pub open spec fn key_word(w: Seq<char>) -> Option<KeyCode> {
    if w == "enter"@ || w == "return"@ {
        Some(KeyCode::Enter)
    } else if w == "escape"@ || w == "esc"@ {
        Some(KeyCode::Esc)
    } else if w == "tab"@ {
        Some(KeyCode::Tab)
    } else if w == "backtab"@ {
        Some(KeyCode::BackTab)
    } else if w == "space"@ {
        Some(KeyCode::Char(' '))
    } else if w == "backspace"@ || w == "bs"@ {
        Some(KeyCode::Backspace)
    } else if w == "delete"@ || w == "del"@ {
        Some(KeyCode::Delete)
    } else if w == "insert"@ || w == "ins"@ {
        Some(KeyCode::Insert)
    } else if w == "up"@ {
        Some(KeyCode::Up)
    } else if w == "down"@ {
        Some(KeyCode::Down)
    } else if w == "left"@ {
        Some(KeyCode::Left)
    } else if w == "right"@ {
        Some(KeyCode::Right)
    } else if w == "home"@ {
        Some(KeyCode::Home)
    } else if w == "end"@ {
        Some(KeyCode::End)
    } else if w == "pageup"@ || w == "pgup"@ {
        Some(KeyCode::PageUp)
    } else if w == "pagedown"@ || w == "pgdn"@ {
        Some(KeyCode::PageDown)
    } else if w.len() > 1 && w[0] == 'f' {
        match parse_u8(w.skip(1)) {
            Some(n) => if 1 <= n <= 24 {
                Some(KeyCode::F(n))
            } else {
                None
            },
            None => None,
        }
    } else if w.len() == 1 && (w[0] as u32) < 128 {
        Some(KeyCode::Char(w[0]))
    } else {
        symbol_word(w)
    }
}

/// The character a spelled-out symbol names.
pub open spec fn symbol_word(w: Seq<char>) -> Option<KeyCode> {
    if w == "minus"@ {
        Some(KeyCode::Char('-'))
    } else if w == "plus"@ {
        Some(KeyCode::Char('+'))
    } else if w == "equals"@ {
        Some(KeyCode::Char('='))
    } else if w == "bracket_left"@ || w == "lbracket"@ {
        Some(KeyCode::Char('['))
    } else if w == "bracket_right"@ || w == "rbracket"@ {
        Some(KeyCode::Char(']'))
    } else if w == "semicolon"@ {
        Some(KeyCode::Char(';'))
    } else if w == "quote"@ || w == "apostrophe"@ {
        Some(KeyCode::Char('\''))
    } else if w == "comma"@ {
        Some(KeyCode::Char(','))
    } else if w == "period"@ || w == "dot"@ {
        Some(KeyCode::Char('.'))
    } else if w == "slash"@ {
        Some(KeyCode::Char('/'))
    } else if w == "backslash"@ {
        Some(KeyCode::Char('\\'))
    } else if w == "grave"@ || w == "backtick"@ {
        Some(KeyCode::Char('`'))
    } else {
        None
    }
}

/// A parsed key with modifiers.
#[derive(Debug, Clone, Copy, PartialEq, Eq, Hash, Structural)]
pub struct ParsedKey {
    pub code: KeyCode,
    pub modifiers: KeyModifiers,
}

/// Parsing a key specification: it is trimmed and lowercased, split at `+`
/// into words, and read; the error carries the lowercased specification, or
/// for a key word that names no key, that word.
pub open spec fn parse_key(s: Seq<char>) -> Result<ParsedKey, Seq<char>> {
    let l = lowercase(trim(s));
    match read_words(split_on(l, '+')) {
        Some((mods, Some(w))) => match key_word(w) {
            Some(code) => Ok(ParsedKey { code, modifiers: KeyModifiers { bits: mods } }),
            None => Err(w),
        },
        _ => Err(l),
    }
}

/// `c` with ASCII uppercase letters made lowercase.
pub open spec fn ascii_lower(c: char) -> char {
    if 'A' <= c <= 'Z' {
        ((c as u32) + 32) as char
    } else {
        c
    }
}

/// Whether a key matches an event's key and modifiers: characters compare
/// without regard to ASCII case, other keys exactly, and the modifiers must be
/// the same.
pub open spec fn key_matches(k: ParsedKey, code: KeyCode, modifiers: KeyModifiers) -> bool {
    let code_matches = match (k.code, code) {
        (KeyCode::Char(a), KeyCode::Char(b)) => ascii_lower(a) == ascii_lower(b),
        (a, b) => a == b,
    };
    code_matches && k.modifiers == modifiers
}

/// `c` with ASCII uppercase letters made lowercase.
pub fn to_ascii_lower(c: char) -> (r: char)
    ensures
        r == ascii_lower(c),
{
    if 'A' <= c && c <= 'Z' {
        let n = c as u32 + 32;
        char_from_ascii(n)
    } else {
        c
    }
}

fn char_from_ascii(n: u32) -> (c: char)
    requires
        n < 128,
    ensures
        c == n as char,
{
    (n as u8) as char
}

impl ParsedKey {
    /// Parse a key specification like `"ctrl+shift+a"` or `"alt+c"`.
    pub fn parse(s: &str) -> (r: Result<ParsedKey, ConfigError>)
        ensures
            parse_key(s@) matches Ok(k) ==> r == Ok::<ParsedKey, ConfigError>(k),
            parse_key(s@) matches Err(e) ==> (r matches Err(ConfigError::InvalidKey(m)) && m@ == e),
            all_ascii(trim(s@)) ==> lowercase(trim(s@)) == trim(s@).map_values(|c: char| ascii_lower(c)),
    {
        let v = chars_of(s);
        let (b, e) = trim_bounds(&v, 0, v.len());
        assert(v@.subrange(0, v@.len() as int) =~= v@);
        let trimmed = string_of_range(&v, b, e);
        let lower = to_lowercase(trimmed.as_str());
        let l = chars_of(lower.as_str());
        let ghost words = split_on(l@, '+');
        let mut mods: u8 = 0;
        let mut key: Option<(usize, usize)> = None;
        let mut start: usize = 0;
        let ghost mut done: Seq<Seq<char>> = Seq::empty();
        proof {
            assert(l@.skip(0) =~= l@);
            assert(done + split_on(l@, '+') =~= words);
        }
        loop
            invariant_except_break
                done + split_on(l@.skip(start as int), '+') == words,
            invariant
                start <= l@.len(),
                read_words(done) == Some(
                    (
                        mods,
                        match key {
                            Some((kb, ke)) => Some(l@.subrange(kb as int, ke as int)),
                            None => None::<Seq<char>>,
                        },
                    ),
                ),
                key matches Some((kb, ke)) ==> kb <= ke <= l@.len(),
                l@ == lowercase(trim(s@)),
                lower@ == l@,
                words == split_on(l@, '+'),
                all_ascii(trim(s@)) ==> lowercase(trim(s@)) == trim(s@).map_values(|c: char| ascii_lower(c)),
            ensures
                done == words,
                read_words(done) == Some(
                    (
                        mods,
                        match key {
                            Some((kb, ke)) => Some(l@.subrange(kb as int, ke as int)),
                            None => None::<Seq<char>>,
                        },
                    ),
                ),
                key matches Some((kb, ke)) ==> kb <= ke <= l@.len(),
            decreases l@.len() - start,
        {
            let ghost rest = l@.skip(start as int);
            let i = find_char_in(&l, start, l.len(), '+');
            proof {
                assert(l@.subrange(start as int, l@.len() as int) =~= rest);
                crate::text::lemma_index_of_bounds(rest, '+');
            }
            let ghost w = l@.subrange(start as int, i as int);
            let bit = modifier_bit(&l, start, i);
            proof {
                assert(rest.take(i - start) =~= w);
                assert(split_on(rest, '+')[0] == w);
                let nd = done.push(w);
                assert(nd.drop_last() =~= done);
            }
            match bit {
                Some(m) => {
                    mods = mods | m;
                },
                None => {
                    if i == start || key.is_some() {
                        proof {
                            let nd = done.push(w);
                            assert(read_words(nd) is None);
                            let tail = split_on(rest, '+').drop_first();
                            assert(split_on(rest, '+') =~= seq![w] + tail);
                            assert(nd + tail =~= words);
                            lemma_read_words_none(nd, tail);
                        }
                        return Err(ConfigError::InvalidKey(lower));
                    }
                    key = Some((start, i));
                },
            }
            proof {
                done = done.push(w);
            }
            if i >= l.len() {
                proof {
                    assert(split_on(rest, '+') =~= seq![w]);
                    assert(done =~= words);
                }
                break;
            }
            proof {
                assert(rest.skip(i - start + 1) =~= l@.skip(i + 1));
                assert(split_on(rest, '+') =~= seq![w] + split_on(l@.skip(i + 1), '+'));
                assert(done + split_on(l@.skip(i + 1), '+') =~= words);
            }
            start = i + 1;
        }
        let (kb, ke) = match key {
            Some(k) => k,
            None => return Err(ConfigError::InvalidKey(lower)),
        };
        match key_code_of(&l, kb, ke) {
            Some(code) => Ok(ParsedKey { code, modifiers: KeyModifiers { bits: mods } }),
            None => Err(ConfigError::InvalidKey(string_of_range(&l, kb, ke))),
        }
    }

    /// Whether this key matches an event's key and modifiers, characters
    /// compared without regard to ASCII case.
    pub fn matches(&self, code: KeyCode, modifiers: KeyModifiers) -> (b: bool)
        ensures
            b == key_matches(*self, code, modifiers),
    {
        let code_matches = match (self.code, code) {
            (KeyCode::Char(a), KeyCode::Char(b)) => to_ascii_lower(a) == to_ascii_lower(b),
            (a, b) => a == b,
        };
        code_matches && self.modifiers == modifiers
    }
}

/// Whether `s[lo..hi]` is `w`.
fn word_is(s: &Vec<char>, lo: usize, hi: usize, w: &str) -> (r: bool)
    requires
        lo <= hi <= s@.len(),
    ensures
        r == (s@.subrange(lo as int, hi as int) == w@),
{
    let wv = chars_of(w);
    let piece = copy_range_chars(s, lo, hi);
    seq_eq(&piece, &wv)
}

fn copy_range_chars(s: &Vec<char>, lo: usize, hi: usize) -> (v: Vec<char>)
    requires
        lo <= hi <= s@.len(),
    ensures
        v@ == s@.subrange(lo as int, hi as int),
{
    let mut v: Vec<char> = Vec::new();
    let mut i = lo;
    while i < hi
        invariant
            lo <= i <= hi,
            hi <= s@.len(),
            v@ == s@.subrange(lo as int, i as int),
        decreases hi - i,
    {
        v.push(s[i]);
        i = i + 1;
        assert(v@ =~= s@.subrange(lo as int, i as int));
    }
    v
}

/// The modifier bit the word `s[lo..hi]` names.
fn modifier_bit(s: &Vec<char>, lo: usize, hi: usize) -> (r: Option<u8>)
    requires
        lo <= hi <= s@.len(),
    ensures
        r == modifier_word(s@.subrange(lo as int, hi as int)),
{
    if word_is(s, lo, hi, "ctrl") || word_is(s, lo, hi, "control") {
        Some(KeyModifiers::CONTROL)
    } else if word_is(s, lo, hi, "alt") || word_is(s, lo, hi, "option") {
        Some(KeyModifiers::ALT)
    } else if word_is(s, lo, hi, "shift") {
        Some(KeyModifiers::SHIFT)
    } else if word_is(s, lo, hi, "super") || word_is(s, lo, hi, "cmd") || word_is(s, lo, hi, "win")
        || word_is(s, lo, hi, "meta") {
        Some(KeyModifiers::SUPER)
    } else {
        None
    }
}

/// The key the word `s[lo..hi]` names.
fn key_code_of(s: &Vec<char>, lo: usize, hi: usize) -> (r: Option<KeyCode>)
    requires
        lo <= hi <= s@.len(),
    ensures
        r == key_word(s@.subrange(lo as int, hi as int)),
{
    let ghost w = s@.subrange(lo as int, hi as int);
    if word_is(s, lo, hi, "enter") || word_is(s, lo, hi, "return") {
        Some(KeyCode::Enter)
    } else if word_is(s, lo, hi, "escape") || word_is(s, lo, hi, "esc") {
        Some(KeyCode::Esc)
    } else if word_is(s, lo, hi, "tab") {
        Some(KeyCode::Tab)
    } else if word_is(s, lo, hi, "backtab") {
        Some(KeyCode::BackTab)
    } else if word_is(s, lo, hi, "space") {
        Some(KeyCode::Char(' '))
    } else if word_is(s, lo, hi, "backspace") || word_is(s, lo, hi, "bs") {
        Some(KeyCode::Backspace)
    } else if word_is(s, lo, hi, "delete") || word_is(s, lo, hi, "del") {
        Some(KeyCode::Delete)
    } else if word_is(s, lo, hi, "insert") || word_is(s, lo, hi, "ins") {
        Some(KeyCode::Insert)
    } else if word_is(s, lo, hi, "up") {
        Some(KeyCode::Up)
    } else if word_is(s, lo, hi, "down") {
        Some(KeyCode::Down)
    } else if word_is(s, lo, hi, "left") {
        Some(KeyCode::Left)
    } else if word_is(s, lo, hi, "right") {
        Some(KeyCode::Right)
    } else if word_is(s, lo, hi, "home") {
        Some(KeyCode::Home)
    } else if word_is(s, lo, hi, "end") {
        Some(KeyCode::End)
    } else if word_is(s, lo, hi, "pageup") || word_is(s, lo, hi, "pgup") {
        Some(KeyCode::PageUp)
    } else if word_is(s, lo, hi, "pagedown") || word_is(s, lo, hi, "pgdn") {
        Some(KeyCode::PageDown)
    } else if hi - lo > 1 && s[lo] == 'f' {
        proof {
            assert(w.skip(1) =~= s@.subrange(lo + 1, hi as int));
        }
        match parse_u8_at(s, lo + 1, hi) {
            Some(n) => if 1 <= n && n <= 24 {
                Some(KeyCode::F(n))
            } else {
                None
            },
            None => None,
        }
    } else if hi - lo == 1 && (s[lo] as u32) < 128 {
        Some(KeyCode::Char(s[lo]))
    } else {
        symbol_code_of(s, lo, hi)
    }
}

/// The character the spelled-out symbol `s[lo..hi]` names.
fn symbol_code_of(s: &Vec<char>, lo: usize, hi: usize) -> (r: Option<KeyCode>)
    requires
        lo <= hi <= s@.len(),
    ensures
        r == symbol_word(s@.subrange(lo as int, hi as int)),
{
    if word_is(s, lo, hi, "minus") {
        Some(KeyCode::Char('-'))
    } else if word_is(s, lo, hi, "plus") {
        Some(KeyCode::Char('+'))
    } else if word_is(s, lo, hi, "equals") {
        Some(KeyCode::Char('='))
    } else if word_is(s, lo, hi, "bracket_left") || word_is(s, lo, hi, "lbracket") {
        Some(KeyCode::Char('['))
    } else if word_is(s, lo, hi, "bracket_right") || word_is(s, lo, hi, "rbracket") {
        Some(KeyCode::Char(']'))
    } else if word_is(s, lo, hi, "semicolon") {
        Some(KeyCode::Char(';'))
    } else if word_is(s, lo, hi, "quote") || word_is(s, lo, hi, "apostrophe") {
        Some(KeyCode::Char('\''))
    } else if word_is(s, lo, hi, "comma") {
        Some(KeyCode::Char(','))
    } else if word_is(s, lo, hi, "period") || word_is(s, lo, hi, "dot") {
        Some(KeyCode::Char('.'))
    } else if word_is(s, lo, hi, "slash") {
        Some(KeyCode::Char('/'))
    } else if word_is(s, lo, hi, "backslash") {
        Some(KeyCode::Char('\\'))
    } else if word_is(s, lo, hi, "grave") || word_is(s, lo, hi, "backtick") {
        Some(KeyCode::Char('`'))
    } else {
        None
    }
}

/// `u8`'s parse of `s[lo..hi]`.
fn parse_u8_at(s: &Vec<char>, lo: usize, hi: usize) -> (r: Option<u8>)
    requires
        lo <= hi <= s@.len(),
    ensures
        r == parse_u8(s@.subrange(lo as int, hi as int)),
{
    let ghost t = s@.subrange(lo as int, hi as int);
    let start = if lo < hi && s[lo] == '+' {
        lo + 1
    } else {
        lo
    };
    let ghost d = s@.subrange(start as int, hi as int);
    proof {
        if lo < hi {
            assert(t[0] == s@[lo as int]);
        }
        if lo < hi && s@[lo as int] == '+' {
            assert(t.skip(1) =~= d);
        } else {
            assert(t =~= d);
        }
    }
    if start >= hi {
        assert(d.len() == 0);
        assert(parse_u8(t) is None);
        return None;
    }
    let mut value: u32 = 0;
    let mut i = start;
    while i < hi
        invariant
            start <= i <= hi,
            hi <= s@.len(),
            d == s@.subrange(start as int, hi as int),
            t == s@.subrange(lo as int, hi as int),
            lo <= start,
            lo <= hi,
            (lo < hi && s@[lo as int] == '+') ==> t.skip(1) == d && t[0] == '+',
            !(lo < hi && s@[lo as int] == '+') ==> t == d && (t.len() > 0 ==> t[0] != '+'),
            forall|k: int| start <= k < i ==> is_digit(#[trigger] s@[k]),
            value == digits_value(s@.subrange(start as int, i as int)),
            value <= 255,
        decreases hi - i,
    {
        let c = s[i];
        if !('0' <= c && c <= '9') {
            assert(d[i - start] == s@[i as int]);
            assert(!is_digit(d[i - start]));
            assert(!all_digits(d));
            return None;
        }
        let digit = (c as u32) - ('0' as u32);
        proof {
            assert(s@.subrange(start as int, i + 1).drop_last() =~= s@.subrange(start as int, i as int));
        }
        let next = value * 10 + digit;
        if next > 255 {
            proof {
                assert(d.take(i + 1 - start) =~= s@.subrange(start as int, i + 1));
                if all_digits(d) {
                    lemma_digits_grow(d, i + 1 - start);
                }
            }
            return None;
        }
        value = next;
        i = i + 1;
    }
    proof {
        assert(s@.subrange(start as int, i as int) =~= d);
        assert forall|k: int| 0 <= k < d.len() implies is_digit(#[trigger] d[k]) by {
            assert(d[k] == s@[start + k]);
        }
        assert(all_digits(d));
    }
    Some(value as u8)
}

/// Digits only add to a value as more are read.
proof fn lemma_digits_grow(d: Seq<char>, n: int)
    requires
        0 <= n <= d.len(),
        forall|i: int| 0 <= i < d.len() ==> is_digit(#[trigger] d[i]),
    ensures
        digits_value(d) >= digits_value(d.take(n)),
    decreases d.len() - n,
{
    if n < d.len() {
        lemma_digits_grow(d, n + 1);
        assert(d.take(n + 1).drop_last() =~= d.take(n));
        assert(is_digit(d[n]));
        lemma_digits_nonneg(d.take(n));
        assert(digits_value(d.take(n + 1)) >= digits_value(d.take(n))) by (nonlinear_arith)
            requires
                digits_value(d.take(n + 1)) == digits_value(d.take(n)) * 10 + (d[n] as int - '0' as int),
                digits_value(d.take(n)) >= 0,
                d[n] as int - '0' as int >= 0,
        {
        }
    } else {
        assert(d.take(n) =~= d);
    }
}

proof fn lemma_digits_nonneg(d: Seq<char>)
    requires
        forall|i: int| 0 <= i < d.len() ==> is_digit(#[trigger] d[i]),
    ensures
        digits_value(d) >= 0,
    decreases d.len(),
{
    if d.len() > 0 {
        lemma_digits_nonneg(d.drop_last());
        assert(is_digit(d[d.len() - 1]));
    }
}

/// A key specification reads the same whatever its letter case and the
/// whitespace around it: parsing depends only on its trimmed, lowercased text.
pub proof fn law_parse_ignores_case_and_padding(s: Seq<char>, t: Seq<char>)
    requires
        lowercase(trim(s)) == lowercase(trim(t)),
    ensures
        parse_key(s) == parse_key(t),
{
}

/// The name of a key as its variant reads, in lower case: `delete` for the
/// Delete key, `pageup` for Page Up, `f5` for F5, the character itself for a
/// character key.
pub open spec fn key_name(c: KeyCode) -> Seq<char> {
    match c {
        KeyCode::Backspace => "backspace"@,
        KeyCode::Enter => "enter"@,
        KeyCode::Left => "left"@,
        KeyCode::Right => "right"@,
        KeyCode::Up => "up"@,
        KeyCode::Down => "down"@,
        KeyCode::Home => "home"@,
        KeyCode::End => "end"@,
        KeyCode::PageUp => "pageup"@,
        KeyCode::PageDown => "pagedown"@,
        KeyCode::Tab => "tab"@,
        KeyCode::BackTab => "backtab"@,
        KeyCode::Delete => "delete"@,
        KeyCode::Insert => "insert"@,
        KeyCode::F(n) => seq!['f'] + decimal(n as nat),
        KeyCode::Char(ch) => seq![ch],
        KeyCode::Esc => "esc"@,
        KeyCode::Null => Seq::empty(),
        KeyCode::Other => Seq::empty(),
    }
}

/// The keys a key specification can name: the special keys, F1 to F24, and
/// the ASCII characters.
pub open spec fn nameable(c: KeyCode) -> bool {
    match c {
        KeyCode::F(n) => 1 <= n <= 24,
        KeyCode::Char(ch) => (ch as u32) < 128,
        KeyCode::Null => false,
        KeyCode::Other => false,
        _ => true,
    }
}

proof fn lemma_digit(d: nat)
    requires
        d < 10,
    ensures
        is_digit(digit(d)),
        digit(d) as int - '0' as int == d,
{
}

pub proof fn lemma_decimal_digits(n: nat)
    ensures
        decimal(n).len() > 0,
        all_digits(decimal(n)),
        digits_value(decimal(n)) == n,
    decreases n,
{
    lemma_digit(n % 10);
    if n < 10 {
        let e = decimal(n);
        assert(e.drop_last() =~= Seq::<char>::empty());
        assert(digits_value(e.drop_last()) == 0);
        assert(e.last() == digit(n));
        assert(is_digit(e[0]));
    } else {
        lemma_decimal_digits(n / 10);
        let d = decimal(n / 10);
        let e = decimal(n);
        assert(e.drop_last() == d);
        assert forall|i: int| 0 <= i < e.len() implies is_digit(#[trigger] e[i]) by {
            if i < d.len() {
                assert(e[i] == d[i]);
            }
        }
        assert(e.last() == digit(n % 10));
        assert(digits_value(e) == digits_value(d) * 10 + (e.last() as int - '0' as int));
        assert(n == (n / 10) * 10 + n % 10);
    }
}

/// Every key a specification can name is read back from its own name: the
/// word `delete` is the Delete key, `pageup` is Page Up, `f12` is F12, and
/// so on; so no two nameable keys share a name.
pub proof fn law_key_names_read_back(c: KeyCode)
    requires
        nameable(c),
    ensures
        key_word(key_name(c)) == Some(c),
{
    reveal_strlit("enter");
    reveal_strlit("return");
    reveal_strlit("escape");
    reveal_strlit("esc");
    reveal_strlit("tab");
    reveal_strlit("backtab");
    reveal_strlit("space");
    reveal_strlit("backspace");
    reveal_strlit("bs");
    reveal_strlit("delete");
    reveal_strlit("del");
    reveal_strlit("insert");
    reveal_strlit("ins");
    reveal_strlit("up");
    reveal_strlit("down");
    reveal_strlit("left");
    reveal_strlit("right");
    reveal_strlit("home");
    reveal_strlit("end");
    reveal_strlit("pageup");
    reveal_strlit("pgup");
    reveal_strlit("pagedown");
    reveal_strlit("pgdn");
    match c {
        KeyCode::F(n) => {
            let w = key_name(c);
            let d = decimal(n as nat);
            lemma_decimal_digits(n as nat);
            assert(w.skip(1) =~= d);
            assert(w[0] == 'f');
            assert(w.len() > 1);
            assert(is_digit(d[0]));
            assert(w.skip(1)[0] != '+');
            assert(parse_u8(w.skip(1)) == Some(n));
            let names = seq![
                "enter"@, "return"@, "escape"@, "esc"@, "tab"@, "backtab"@, "space"@, "backspace"@, "bs"@,
                "delete"@, "del"@, "insert"@, "ins"@, "up"@, "down"@, "left"@, "right"@, "home"@, "end"@,
                "pageup"@, "pgup"@, "pagedown"@, "pgdn"@
            ];
            assert forall|i: int| 0 <= i < names.len() implies w != #[trigger] names[i] by {
                assert(names[i][0] != 'f');
            }
            assert(key_word(w) == Some(c));
        },
        KeyCode::Char(ch) => {
            let w = key_name(c);
            assert(w.len() == 1);
            assert(key_word(w) == Some(c));
        },
        KeyCode::Backspace => {
            assert(key_word(key_name(c)) == Some(c));
        },
        KeyCode::Enter => {
            assert(key_word(key_name(c)) == Some(c));
        },
        KeyCode::Left => {
            assert("left"@[0] != "down"@[0]);
            assert(key_word(key_name(c)) == Some(c));
        },
        KeyCode::Right => {
            assert("right"@[0] != "enter"@[0]);
            assert("right"@[0] != "space"@[0]);
            assert(key_word(key_name(c)) == Some(c));
        },
        KeyCode::Up => {
            assert("up"@[0] != "bs"@[0]);
            assert(key_word(key_name(c)) == Some(c));
        },
        KeyCode::Down => {
            assert(key_word(key_name(c)) == Some(c));
        },
        KeyCode::Home => {
            assert("home"@[0] != "down"@[0]);
            assert("home"@[0] != "left"@[0]);
            assert(key_word(key_name(c)) == Some(c));
        },
        KeyCode::End => {
            assert("end"@[1] != "esc"@[1]);
            assert("end"@[0] != "tab"@[0]);
            assert("end"@[0] != "del"@[0]);
            assert("end"@[0] != "ins"@[0]);
            assert(key_word(key_name(c)) == Some(c));
        },
        KeyCode::PageUp => {
            assert("pageup"@[0] != "return"@[0]);
            assert("pageup"@[0] != "escape"@[0]);
            assert("pageup"@[0] != "delete"@[0]);
            assert("pageup"@[0] != "insert"@[0]);
            assert(key_word(key_name(c)) == Some(c));
        },
        KeyCode::PageDown => {
            assert(key_word(key_name(c)) == Some(c));
        },
        KeyCode::Tab => {
            assert("tab"@[0] != "esc"@[0]);
            assert(key_word(key_name(c)) == Some(c));
        },
        KeyCode::BackTab => {
            assert(key_word(key_name(c)) == Some(c));
        },
        KeyCode::Delete => {
            assert("delete"@[0] != "return"@[0]);
            assert("delete"@[0] != "escape"@[0]);
            assert(key_word(key_name(c)) == Some(c));
        },
        KeyCode::Insert => {
            assert("insert"@[0] != "return"@[0]);
            assert("insert"@[0] != "escape"@[0]);
            assert("insert"@[0] != "delete"@[0]);
            assert(key_word(key_name(c)) == Some(c));
        },
        KeyCode::Esc => {
            assert(key_word(key_name(c)) == Some(c));
        },
        _ => {},
    }
}

} // verus!

