//! Character classes and text building used across the crate.

use vstd::prelude::*;
use vstd::string::{StrSliceExecFns, StringExecFns};

verus! {

/// Whether `c` is a control character (general category Cc): U+0000 to
/// U+001F and U+007F to U+009F.
pub open spec fn spec_is_control(c: char) -> bool {
    (c as u32) <= 0x1f || (0x7f <= (c as u32) && (c as u32) <= 0x9f)
}

/// Whether `c` is a control character.
pub fn is_control(c: char) -> (b: bool)
    ensures
        b == spec_is_control(c),
{
    let n = c as u32;
    n <= 0x1f || (0x7f <= n && n <= 0x9f)
}

/// Whether `c` is white space (the Unicode `White_Space` property).
pub open spec fn spec_is_whitespace(c: char) -> bool {
    let n = c as u32;
    (0x09 <= n && n <= 0x0d) || n == 0x20 || n == 0x85 || n == 0xa0 || n == 0x1680 || (0x2000 <= n
        && n <= 0x200a) || n == 0x2028 || n == 0x2029 || n == 0x202f || n == 0x205f || n == 0x3000
}

/// Whether `c` is white space.
pub fn is_whitespace(c: char) -> (b: bool)
    ensures
        b == spec_is_whitespace(c),
{
    let n = c as u32;
    (0x09 <= n && n <= 0x0d) || n == 0x20 || n == 0x85 || n == 0xa0 || n == 0x1680 || (0x2000 <= n
        && n <= 0x200a) || n == 0x2028 || n == 0x2029 || n == 0x202f || n == 0x205f || n == 0x3000
}

/// `s` without its trailing white space.
pub open spec fn trim_end(s: Seq<char>) -> Seq<char>
    decreases s.len(),
{
    if s.len() > 0 && spec_is_whitespace(s.last()) {
        trim_end(s.drop_last())
    } else {
        s
    }
}

/// The UTF-8 encoding of a string.
pub open spec fn utf8(s: Seq<char>) -> Seq<u8> {
    vstd::utf8::encode_utf8(s)
}

/// Whether some character of `s` is a control character.
pub fn has_control_char(s: &str) -> (b: bool)
    ensures
        b == exists|i: int| 0 <= i < s@.len() && spec_is_control(#[trigger] s@[i]),
{
    let n = s.unicode_len();
    let mut i: usize = 0;
    while i < n
        invariant
            i <= n,
            n == s@.len(),
            forall|k: int| 0 <= k < i ==> !spec_is_control(#[trigger] s@[k]),
        decreases n - i,
    {
        if is_control(s.get_char(i)) {
            return true;
        }
        i = i + 1;
    }
    false
}

/// The decimal digit for `d`.
pub open spec fn digit(d: nat) -> char {
    if d == 0 { '0' }
    else if d == 1 { '1' }
    else if d == 2 { '2' }
    else if d == 3 { '3' }
    else if d == 4 { '4' }
    else if d == 5 { '5' }
    else if d == 6 { '6' }
    else if d == 7 { '7' }
    else if d == 8 { '8' }
    else { '9' }
}

/// The decimal representation of `n`, without leading zeros.
pub open spec fn decimal(n: nat) -> Seq<char>
    decreases n,
{
    if n < 10 {
        seq![digit(n)]
    } else {
        decimal(n / 10).push(digit(n % 10))
    }
}

fn digit_char(d: u64) -> (c: char)
    requires
        d < 10,
    ensures
        c == digit(d as nat),
{
    if d == 0 { '0' }
    else if d == 1 { '1' }
    else if d == 2 { '2' }
    else if d == 3 { '3' }
    else if d == 4 { '4' }
    else if d == 5 { '5' }
    else if d == 6 { '6' }
    else if d == 7 { '7' }
    else if d == 8 { '8' }
    else { '9' }
}

/// Append the decimal representation of `n`.
pub fn push_decimal(out: &mut String, n: u64)
    ensures
        final(out)@ == old(out)@ + decimal(n as nat),
    decreases n,
{
    if n >= 10 {
        push_decimal(out, n / 10);
    }
    push_char(out, digit_char(n % 10));
    assert(out@ =~= old(out)@ + decimal(n as nat));
}

/// `String::push`: appends `c` to the end of `s`.
#[verifier::external_body]
pub(crate) fn push_char(s: &mut String, c: char)
    ensures
        final(s)@ == old(s)@.push(c),
{
    s.push(c);
}

/// Append `t`.
pub fn push_str(out: &mut String, t: &str)
    ensures
        final(out)@ == old(out)@ + t@,
{
    out.append(t);
}

/// `s` without its leading white space.
pub open spec fn trim_start(s: Seq<char>) -> Seq<char>
    decreases s.len(),
{
    if s.len() > 0 && spec_is_whitespace(s[0]) {
        trim_start(s.drop_first())
    } else {
        s
    }
}

/// `s` without leading and trailing white space.
pub open spec fn trim(s: Seq<char>) -> Seq<char> {
    trim_start(trim_end(s))
}

/// The index of the first `c` in `s`, or the length of `s` if there is none.
pub open spec fn index_of(s: Seq<char>, c: char) -> int
    decreases s.len(),
{
    if s.len() == 0 {
        0
    } else if s[0] == c {
        0
    } else {
        1 + index_of(s.drop_first(), c)
    }
}

/// The first index of a character lies within the string.
pub proof fn lemma_index_of_bounds(s: Seq<char>, c: char)
    ensures
        0 <= index_of(s, c) <= s.len(),
    decreases s.len(),
{
    if s.len() > 0 && s[0] != c {
        lemma_index_of_bounds(s.drop_first(), c);
    }
}

/// The lines of `s`: pieces ended by `\n` (a `\r` just before it is dropped
/// too), the last piece without an ending kept if it is not empty.
pub open spec fn lines(s: Seq<char>) -> Seq<Seq<char>>
    decreases s.len(),
{
    if s.len() == 0 {
        Seq::empty()
    } else {
        let i = index_of(s, '\n');
        proof {
            lemma_index_of_bounds(s, '\n');
        }
        let l = s.take(i);
        if i < s.len() {
            let l2 = if l.len() > 0 && l.last() == '\r' { l.drop_last() } else { l };
            seq![l2] + lines(s.skip(i + 1))
        } else {
            seq![l]
        }
    }
}

/// `s` without the prefix `p`, if it starts with it.
pub open spec fn strip_prefix(s: Seq<char>, p: Seq<char>) -> Option<Seq<char>> {
    if p.len() <= s.len() && s.take(p.len() as int) == p {
        Some(s.skip(p.len() as int))
    } else {
        None
    }
}

/// The characters of `s`.
pub fn chars_of(s: &str) -> (v: Vec<char>)
    ensures
        v@ == s@,
{
    let n = s.unicode_len();
    let mut v: Vec<char> = Vec::new();
    let mut i: usize = 0;
    while i < n
        invariant
            i <= n,
            n == s@.len(),
            v@ == s@.take(i as int),
        decreases n - i,
    {
        v.push(s.get_char(i));
        i = i + 1;
        assert(v@ =~= s@.take(i as int));
    }
    assert(s@.take(n as int) =~= s@);
    v
}

/// The string holding `v`.
pub fn string_of(v: &[char]) -> (s: String)
    ensures
        s@ == v@,
{
    let mut s = String::new();
    let mut i: usize = 0;
    while i < v.len()
        invariant
            i <= v@.len(),
            s@ == v@.take(i as int),
        decreases v@.len() - i,
    {
        push_char(&mut s, v[i]);
        i = i + 1;
        assert(s@ =~= v@.take(i as int));
    }
    assert(v@.take(i as int) =~= v@);
    s
}

/// Whether two strings are equal.
pub fn str_eq(a: &str, b: &str) -> (r: bool)
    ensures
        r == (a@ == b@),
{
    let x = chars_of(a);
    let y = chars_of(b);
    seq_eq(&x, &y)
}

/// Whether two character vectors are equal.
pub fn seq_eq(x: &Vec<char>, y: &Vec<char>) -> (r: bool)
    ensures
        r == (x@ == y@),
{
    if x.len() != y.len() {
        return false;
    }
    let mut i: usize = 0;
    while i < x.len()
        invariant
            i <= x@.len(),
            x@.len() == y@.len(),
            forall|k: int| 0 <= k < i ==> x@[k] == y@[k],
        decreases x@.len() - i,
    {
        if x[i] != y[i] {
            return false;
        }
        i = i + 1;
    }
    assert(x@ =~= y@);
    true
}

/// The index of the first `c` in `s[from..]`, as an index of `s`.
pub fn find_char(s: &Vec<char>, from: usize, c: char) -> (i: usize)
    requires
        from <= s@.len(),
    ensures
        from <= i <= s@.len(),
        i - from == index_of(s@.skip(from as int), c),
{
    let mut i = from;
    while i < s.len() && s[i] != c
        invariant
            from <= i <= s@.len(),
            forall|k: int| from <= k < i ==> s@[k] != c,
        decreases s@.len() - i,
    {
        i = i + 1;
    }
    proof {
        lemma_index_of(s@.skip(from as int), c, i - from);
    }
    i
}

/// A first occurrence found by scanning is what `index_of` gives.
pub proof fn lemma_index_of(s: Seq<char>, c: char, k: int)
    requires
        0 <= k <= s.len(),
        forall|m: int| 0 <= m < k ==> s[m] != c,
        k == s.len() || s[k] == c,
    ensures
        index_of(s, c) == k,
    decreases k,
{
    if k > 0 {
        lemma_index_of(s.drop_first(), c, k - 1);
    }
}

/// Trimming white space at both ends keeps the piece between the first and
/// the last character that is not white space.
pub proof fn lemma_trim_range(s: Seq<char>, b: int, e: int)
    requires
        0 <= b <= e <= s.len(),
        forall|i: int| 0 <= i < b ==> spec_is_whitespace(#[trigger] s[i]),
        forall|i: int| e <= i < s.len() ==> spec_is_whitespace(#[trigger] s[i]),
        b < e ==> !spec_is_whitespace(s[b]) && !spec_is_whitespace(s[e - 1]),
        b == e ==> b == 0 || e == s.len() || forall|i: int| 0 <= i < s.len() ==> spec_is_whitespace(#[trigger] s[i]),
    ensures
        trim(s) == s.subrange(b, e),
{
    if b < e {
        lemma_trim_end_at(s, e);
        lemma_trim_start_at(s.take(e), b);
        assert(s.take(e).skip(b) =~= s.subrange(b, e));
    } else {
        assert forall|i: int| 0 <= i < s.len() implies spec_is_whitespace(#[trigger] s[i]) by {
            if b == 0 && e == 0 {
            } else if e == s.len() {
            }
        }
        lemma_trim_end_at(s, 0);
        assert(s.take(0) =~= Seq::<char>::empty());
        assert(s.subrange(b, e) =~= Seq::<char>::empty());
    }
}

/// Trimming trailing white space keeps what precedes the trailing run.
pub proof fn lemma_trim_end_at(s: Seq<char>, n: int)
    requires
        0 <= n <= s.len(),
        forall|i: int| n <= i < s.len() ==> spec_is_whitespace(#[trigger] s[i]),
        n == 0 || !spec_is_whitespace(s[n - 1]),
    ensures
        trim_end(s) == s.take(n),
    decreases s.len(),
{
    if s.len() == n {
        assert(s.take(n) =~= s);
    } else {
        assert(spec_is_whitespace(s[s.len() - 1]));
        lemma_trim_end_at(s.drop_last(), n);
        assert(s.drop_last().take(n) =~= s.take(n));
    }
}

/// Trimming leading white space keeps what follows the leading run.
pub proof fn lemma_trim_start_at(s: Seq<char>, n: int)
    requires
        0 <= n <= s.len(),
        forall|i: int| 0 <= i < n ==> spec_is_whitespace(#[trigger] s[i]),
        n == s.len() || !spec_is_whitespace(s[n]),
    ensures
        trim_start(s) == s.skip(n),
    decreases n,
{
    if n == 0 {
        assert(s.skip(0) =~= s);
    } else {
        lemma_trim_start_at(s.drop_first(), n - 1);
        assert(s.drop_first().skip(n - 1) =~= s.skip(n));
    }
}

/// The bounds of `s[lo..hi]` without white space at either end.
pub fn trim_bounds(s: &Vec<char>, lo: usize, hi: usize) -> (r: (usize, usize))
    requires
        lo <= hi <= s@.len(),
    ensures
        lo <= r.0 <= r.1 <= hi,
        trim(s@.subrange(lo as int, hi as int)) == s@.subrange(r.0 as int, r.1 as int),
{
    let ghost t = s@.subrange(lo as int, hi as int);
    let mut b = lo;
    while b < hi && is_whitespace(s[b])
        invariant
            lo <= b <= hi,
            hi <= s@.len(),
            forall|i: int| lo <= i < b ==> spec_is_whitespace(#[trigger] s@[i]),
        decreases hi - b,
    {
        b = b + 1;
    }
    let mut e = hi;
    while e > b && is_whitespace(s[e - 1])
        invariant
            b <= e <= hi,
            hi <= s@.len(),
            forall|i: int| e <= i < hi ==> spec_is_whitespace(#[trigger] s@[i]),
        decreases e,
    {
        e = e - 1;
    }
    proof {
        assert forall|i: int| 0 <= i < b - lo implies spec_is_whitespace(#[trigger] t[i]) by {
            assert(t[i] == s@[lo + i]);
        }
        assert forall|i: int| e - lo <= i < t.len() implies spec_is_whitespace(#[trigger] t[i]) by {
            assert(t[i] == s@[lo + i]);
        }
        if b == e && b < hi {
            assert forall|i: int| 0 <= i < t.len() implies spec_is_whitespace(#[trigger] t[i]) by {
                assert(t[i] == s@[lo + i]);
            }
        }
        lemma_trim_range(t, b - lo, e - lo);
        assert(t.subrange(b - lo, e - lo) =~= s@.subrange(b as int, e as int));
    }
    (b, e)
}

/// Whether `s[lo..hi]` starts with `p`.
pub fn has_prefix_at(s: &Vec<char>, lo: usize, hi: usize, p: &str) -> (r: bool)
    requires
        lo <= hi <= s@.len(),
    ensures
        r == (strip_prefix(s@.subrange(lo as int, hi as int), p@) is Some),
{
    let pv = chars_of(p);
    if pv.len() > hi - lo {
        return false;
    }
    let mut i: usize = 0;
    while i < pv.len()
        invariant
            i <= pv@.len(),
            pv@.len() <= hi - lo,
            lo <= hi <= s@.len(),
            pv@ == p@,
            forall|k: int| 0 <= k < i ==> s@[lo + k] == pv@[k],
        decreases pv@.len() - i,
    {
        if s[lo + i] != pv[i] {
            assert(s@.subrange(lo as int, hi as int).take(pv@.len() as int)[i as int] != p@[i as int]);
            return false;
        }
        i = i + 1;
    }
    assert(s@.subrange(lo as int, hi as int).take(pv@.len() as int) =~= p@);
    true
}

/// The line ranges of `s`: for each line, where it starts and ends.
pub fn line_ranges(s: &Vec<char>) -> (r: Vec<(usize, usize)>)
    ensures
        r@.len() == lines(s@).len(),
        forall|i: int| 0 <= i < r@.len() ==> #[trigger] r@[i].0 <= r@[i].1 <= s@.len()
            && s@.subrange(r@[i].0 as int, r@[i].1 as int) == lines(s@)[i],
{
    let n = s.len();
    let mut out: Vec<(usize, usize)> = Vec::new();
    let mut start: usize = 0;
    let ghost mut got: Seq<Seq<char>> = Seq::empty();
    assert(s@.skip(0) =~= s@);
    assert(got + lines(s@) =~= lines(s@));
    while start < n
        invariant
            start <= n,
            n == s@.len(),
            got + lines(s@.skip(start as int)) == lines(s@),
            out@.len() == got.len(),
            forall|i: int| 0 <= i < out@.len() ==> #[trigger] out@[i].0 <= out@[i].1 <= s@.len()
                && s@.subrange(out@[i].0 as int, out@[i].1 as int) == got[i],
        decreases n - start,
    {
        let ghost rest = s@.skip(start as int);
        let i = find_char(s, start, '\n');
        let mut end = i;
        if i < n && i > start && s[i - 1] == '\r' {
            end = i - 1;
        }
        proof {
            let k = i - start;
            assert(rest.take(k) =~= s@.subrange(start as int, i as int));
            if i < n {
                assert(rest.skip(k + 1) =~= s@.skip(i + 1));
                if i > start && s@[i - 1] == '\r' {
                    assert(rest.take(k).drop_last() =~= s@.subrange(start as int, end as int));
                }
            } else {
                assert(s@.skip(n as int) =~= Seq::<char>::empty());
            }
            let line = s@.subrange(start as int, end as int);
            assert(lines(rest) == seq![line] + if i < n { lines(s@.skip(i + 1)) } else { Seq::empty() });
            got = got.push(line);
        }
        out.push((start, end));
        start = if i < n {
            i + 1
        } else {
            n
        };
        proof {
            if i >= n {
                assert(s@.skip(n as int) =~= Seq::<char>::empty());
            }
        }
    }
    proof {
        assert(s@.skip(start as int) =~= Seq::<char>::empty());
        assert(got =~= lines(s@));
    }
    out
}

/// The index of the first `c` in `s[lo..hi]`, as an index of `s`, or `hi`.
pub fn find_char_in(s: &Vec<char>, lo: usize, hi: usize, c: char) -> (i: usize)
    requires
        lo <= hi <= s@.len(),
    ensures
        lo <= i <= hi,
        i - lo == index_of(s@.subrange(lo as int, hi as int), c),
{
    let mut i = lo;
    while i < hi && s[i] != c
        invariant
            lo <= i <= hi,
            hi <= s@.len(),
            forall|k: int| lo <= k < i ==> s@[k] != c,
        decreases hi - i,
    {
        i = i + 1;
    }
    proof {
        lemma_index_of(s@.subrange(lo as int, hi as int), c, i - lo);
    }
    i
}

/// The string holding `s[lo..hi]`.
pub fn string_of_range(s: &Vec<char>, lo: usize, hi: usize) -> (r: String)
    requires
        lo <= hi <= s@.len(),
    ensures
        r@ == s@.subrange(lo as int, hi as int),
{
    let mut r = String::new();
    let mut i = lo;
    while i < hi
        invariant
            lo <= i <= hi,
            hi <= s@.len(),
            r@ == s@.subrange(lo as int, i as int),
        decreases hi - i,
    {
        push_char(&mut r, s[i]);
        i = i + 1;
        assert(r@ =~= s@.subrange(lo as int, i as int));
    }
    r
}
/// `base` joined with `comp` as a path: an absolute `comp` replaces `base`;
/// otherwise a separator goes between them unless `base` is empty or ends
/// with one.
pub open spec fn path_join(base: Seq<char>, comp: Seq<char>) -> Seq<char> {
    if comp.len() > 0 && comp[0] == '/' {
        comp
    } else if base.len() > 0 && base.last() != '/' {
        base + "/"@ + comp
    } else {
        base + comp
    }
}

/// `base` joined with `comp` as a path.
pub fn join_path(base: &str, comp: &str) -> (r: String)
    ensures
        r@ == path_join(base@, comp@),
{
    let b = chars_of(base);
    let c = chars_of(comp);
    let mut r = String::new();
    if c.len() > 0 && c[0] == '/' {
        push_str(&mut r, comp);
    } else if b.len() > 0 && b[b.len() - 1] != '/' {
        push_str(&mut r, base);
        push_str(&mut r, "/");
        push_str(&mut r, comp);
    } else {
        push_str(&mut r, base);
        push_str(&mut r, comp);
    }
    r
}
} // verus!
