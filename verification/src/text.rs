//! Character-level text primitives with their specifications.
//!
//! Strings are modelled by their view, the sequence of their `char`s.
//! Every position below is a character index; since every position that a
//! search returns lies on a character boundary, these indices stand for the
//! byte positions of the standard library one for one.

use vstd::prelude::*;

verus! {

// ---------------------------------------------------------------------------
// Specifications
// ---------------------------------------------------------------------------

/// `n` occurs in `h` starting at index `i`.
pub open spec fn occurs_at(h: Seq<char>, n: Seq<char>, i: int) -> bool {
    0 <= i && i + n.len() <= h.len() && h.subrange(i, i + n.len()) == n
}

/// The first occurrence of `n` in `h` at an index `i` or later.
pub open spec fn find_from(h: Seq<char>, n: Seq<char>, i: int) -> Option<int>
    decreases h.len() + 1 - i,
{
    if i < 0 || i + n.len() > h.len() {
        None
    } else if occurs_at(h, n, i) {
        Some(i)
    } else {
        find_from(h, n, i + 1)
    }
}

/// The index of the first occurrence of `n` in `h` (`str::find`).
pub open spec fn find(h: Seq<char>, n: Seq<char>) -> Option<int> {
    find_from(h, n, 0)
}

/// The last occurrence of `n` in `h` at an index `i` or earlier.
pub open spec fn rfind_upto(h: Seq<char>, n: Seq<char>, i: int) -> Option<int>
    decreases i + 1,
{
    if i < 0 {
        None
    } else if occurs_at(h, n, i) {
        Some(i)
    } else {
        rfind_upto(h, n, i - 1)
    }
}

/// The index of the last occurrence of `n` in `h` (`str::rfind`).
pub open spec fn rfind(h: Seq<char>, n: Seq<char>) -> Option<int> {
    rfind_upto(h, n, h.len() - n.len())
}

/// `h` contains `n` (`str::contains`).
pub open spec fn contains(h: Seq<char>, n: Seq<char>) -> bool {
    find(h, n) is Some
}

/// `s` begins with `p`.
pub open spec fn starts_with(s: Seq<char>, p: Seq<char>) -> bool {
    p.len() <= s.len() && s.take(p.len() as int) == p
}

/// `s` ends with `p`.
pub open spec fn ends_with(s: Seq<char>, p: Seq<char>) -> bool {
    p.len() <= s.len() && s.skip(s.len() - p.len()) == p
}

/// The Unicode `White_Space` property, as `char::is_whitespace` defines it.
pub open spec fn is_whitespace(c: char) -> bool {
    ||| c == ' '
    ||| ('\x09' <= c && c <= '\x0d')
    ||| c == '\u{85}'
    ||| c == '\u{a0}'
    ||| c == '\u{1680}'
    ||| ('\u{2000}' <= c && c <= '\u{200a}')
    ||| c == '\u{2028}'
    ||| c == '\u{2029}'
    ||| c == '\u{202f}'
    ||| c == '\u{205f}'
    ||| c == '\u{3000}'
}

/// `s` without its leading whitespace.
pub open spec fn trim_start(s: Seq<char>) -> Seq<char>
    decreases s.len(),
{
    if s.len() > 0 && is_whitespace(s[0]) {
        trim_start(s.drop_first())
    } else {
        s
    }
}

/// `s` without its trailing whitespace.
pub open spec fn trim_end(s: Seq<char>) -> Seq<char>
    decreases s.len(),
{
    if s.len() > 0 && is_whitespace(s.last()) {
        trim_end(s.drop_last())
    } else {
        s
    }
}

/// `s` without leading and trailing whitespace (`str::trim`).
pub open spec fn trim(s: Seq<char>) -> Seq<char> {
    trim_end(trim_start(s))
}

/// `s` without its leading newlines (`str::trim_start_matches('\n')`).
pub open spec fn trim_leading_newlines(s: Seq<char>) -> Seq<char>
    decreases s.len(),
{
    if s.len() > 0 && s[0] == '\n' {
        trim_leading_newlines(s.drop_first())
    } else {
        s
    }
}

/// A line as `str::lines` gives it: a final carriage return is dropped.
pub open spec fn strip_cr(line: Seq<char>) -> Seq<char> {
    if line.len() > 0 && line.last() == '\r' {
        line.drop_last()
    } else {
        line
    }
}

/// The lines of `s` as `str::lines` yields them: split at `\n`, a `\r`
/// before the `\n` removed, and no empty line after a final line ending.
pub open spec fn lines(s: Seq<char>) -> Seq<Seq<char>>
    decreases s.len(),
{
    if s.len() == 0 {
        seq![]
    } else {
        match find(s, seq!['\n']) {
            None => seq![s],
            Some(i) => {
                proof {
                    lemma_find_from_found(s, seq!['\n'], 0);
                }
                seq![strip_cr(s.take(i))] + lines(s.skip(i + 1))
            },
        }
    }
}

/// Every line followed by a newline.
pub open spec fn join_lines(ls: Seq<Seq<char>>) -> Seq<char>
    decreases ls.len(),
{
    if ls.len() == 0 {
        seq![]
    } else {
        ls[0] + seq!['\n'] + join_lines(ls.drop_first())
    }
}

/// The elements of `parts` with `sep` between neighbours (`Itertools::join`).
pub open spec fn join_with(parts: Seq<Seq<char>>, sep: Seq<char>) -> Seq<char>
    decreases parts.len(),
{
    if parts.len() == 0 {
        seq![]
    } else if parts.len() == 1 {
        parts[0]
    } else {
        join_with(parts.drop_last(), sep) + sep + parts.last()
    }
}

// ---------------------------------------------------------------------------
// Building strings
// ---------------------------------------------------------------------------

/// Appends one character to a string.
///
/// Trusted: `String::push` appends the given `char` to the end of the string.
#[verifier::external_body]
pub(crate) fn push_char(s: &mut String, c: char)
    ensures
        final(s)@ == old(s)@.push(c),
{
    s.push(c);
}

/// The characters of a string slice, in order.
pub fn chars_of(s: &str) -> (res: Vec<char>)
    ensures
        res@ == s@,
{
    let mut v: Vec<char> = Vec::new();
    for c in it: s.chars()
        invariant
            v@ == it.seq().take(it.index() as int),
            it.seq() == s@,
    {
        v.push(c);
    }
    v
}

/// Appends `cs[lo..hi]` to `s`.
pub fn push_range(s: &mut String, cs: &Vec<char>, lo: usize, hi: usize)
    requires
        lo <= hi <= cs@.len(),
    ensures
        final(s)@ == old(s)@ + cs@.subrange(lo as int, hi as int),
{
    let mut i = lo;
    while i < hi
        invariant
            lo <= i <= hi <= cs@.len(),
            s@ == old(s)@ + cs@.subrange(lo as int, i as int),
        decreases hi - i,
    {
        push_char(s, cs[i]);
        assert(cs@.subrange(lo as int, i + 1) == cs@.subrange(lo as int, i as int).push(cs@[i as int]));
        i = i + 1;
    }
}

/// A new string holding `cs[lo..hi]`.
pub fn string_of_range(cs: &Vec<char>, lo: usize, hi: usize) -> (res: String)
    requires
        lo <= hi <= cs@.len(),
    ensures
        res@ == cs@.subrange(lo as int, hi as int),
{
    let mut s = String::new();
    push_range(&mut s, cs, lo, hi);
    s
}

/// Appends a string slice to `s`.
pub fn push_str(s: &mut String, t: &str)
    ensures
        final(s)@ == old(s)@ + t@,
{
    s.append(t);
}

// ---------------------------------------------------------------------------
// Searching
// ---------------------------------------------------------------------------

/// Whether `n` occurs in `cs` at index `pos`.
pub fn occurs_at_exec(cs: &Vec<char>, pos: usize, n: &Vec<char>) -> (res: bool)
    ensures
        res == occurs_at(cs@, n@, pos as int),
{
    if n.len() > cs.len() || pos > cs.len() - n.len() {
        return false;
    }
    let mut k: usize = 0;
    while k < n.len()
        invariant
            pos + n.len() <= cs.len(),
            0 <= k <= n@.len(),
            forall|j: int| 0 <= j < k ==> cs@[pos + j] == n@[j],
        decreases n@.len() - k,
    {
        if cs[pos + k] != n[k] {
            assert(cs@.subrange(pos as int, pos + n@.len())[k as int] != n@[k as int]);
            return false;
        }
        k = k + 1;
    }
    assert(cs@.subrange(pos as int, pos + n@.len()) =~= n@);
    true
}

/// Lemma: the occurrences in a window are the occurrences in the whole
/// sequence, shifted by the window's start.
pub proof fn lemma_occurs_in_window(cs: Seq<char>, lo: int, hi: int, n: Seq<char>, i: int)
    requires
        0 <= lo <= hi <= cs.len(),
        0 <= i,
    ensures
        occurs_at(cs.subrange(lo, hi), n, i) <==> (i + n.len() <= hi - lo && occurs_at(
            cs,
            n,
            lo + i,
        )),
{
    let w = cs.subrange(lo, hi);
    if i + n.len() <= hi - lo {
        assert(w.subrange(i, i + n.len()) =~= cs.subrange(lo + i, lo + i + n.len()));
    }
}

/// The first occurrence of `n` in the window `cs[lo..hi]`, relative to `lo`.
pub fn find_in(cs: &Vec<char>, lo: usize, hi: usize, n: &Vec<char>) -> (res: Option<usize>)
    requires
        lo <= hi <= cs@.len(),
    ensures
        match res {
            Some(i) => find(cs@.subrange(lo as int, hi as int), n@) == Some(i as int),
            None => find(cs@.subrange(lo as int, hi as int), n@) is None,
        },
{
    let ghost w = cs@.subrange(lo as int, hi as int);
    if n.len() > hi - lo {
        assert(find_from(w, n@, 0) is None);
        return None;
    }
    let last = hi - lo - n.len();
    let mut i: usize = 0;
    loop
        invariant
            lo <= hi <= cs@.len(),
            last + n@.len() == hi - lo,
            w == cs@.subrange(lo as int, hi as int),
            0 <= i <= last,
            find(w, n@) == find_from(w, n@, i as int),
        decreases last - i,
    {
        proof {
            lemma_occurs_in_window(cs@, lo as int, hi as int, n@, i as int);
        }
        if occurs_at_exec(cs, lo + i, n) {
            return Some(i);
        }
        if i == last {
            assert(find_from(w, n@, i + 1) is None);
            return None;
        }
        i = i + 1;
    }
}

/// The last occurrence of `n` in the window `cs[lo..hi]`, relative to `lo`.
pub fn rfind_in(cs: &Vec<char>, lo: usize, hi: usize, n: &Vec<char>) -> (res: Option<usize>)
    requires
        lo <= hi <= cs@.len(),
    ensures
        match res {
            Some(i) => rfind(cs@.subrange(lo as int, hi as int), n@) == Some(i as int),
            None => rfind(cs@.subrange(lo as int, hi as int), n@) is None,
        },
{
    let ghost w = cs@.subrange(lo as int, hi as int);
    if n.len() > hi - lo {
        assert(rfind_upto(w, n@, w.len() - n@.len()) is None);
        return None;
    }
    let last = hi - lo - n.len();
    let mut j: usize = last;
    loop
        invariant
            lo <= hi <= cs@.len(),
            last + n@.len() == hi - lo,
            w == cs@.subrange(lo as int, hi as int),
            0 <= j <= last,
            rfind(w, n@) == rfind_upto(w, n@, j as int),
        decreases j,
    {
        proof {
            lemma_occurs_in_window(cs@, lo as int, hi as int, n@, j as int);
        }
        if occurs_at_exec(cs, lo + j, n) {
            return Some(j);
        }
        if j == 0 {
            assert(rfind_upto(w, n@, -1) is None);
            return None;
        }
        j = j - 1;
    }
}

/// The first `c` in the window `cs[lo..hi]`, relative to `lo`.
pub fn find_char_in(cs: &Vec<char>, lo: usize, hi: usize, c: char) -> (res: Option<usize>)
    requires
        lo <= hi <= cs@.len(),
    ensures
        match res {
            Some(i) => find(cs@.subrange(lo as int, hi as int), seq![c]) == Some(i as int),
            None => find(cs@.subrange(lo as int, hi as int), seq![c]) is None,
        },
{
    let n = vec![c];
    assert(n@ =~= seq![c]);
    find_in(cs, lo, hi, &n)
}

/// The last `c` in the window `cs[lo..hi]`, relative to `lo`.
pub fn rfind_char_in(cs: &Vec<char>, lo: usize, hi: usize, c: char) -> (res: Option<usize>)
    requires
        lo <= hi <= cs@.len(),
    ensures
        match res {
            Some(i) => rfind(cs@.subrange(lo as int, hi as int), seq![c]) == Some(i as int),
            None => rfind(cs@.subrange(lo as int, hi as int), seq![c]) is None,
        },
{
    let n = vec![c];
    assert(n@ =~= seq![c]);
    rfind_in(cs, lo, hi, &n)
}

/// Lemma: a found index is an occurrence and lies inside the haystack.
pub proof fn lemma_find_from_found(h: Seq<char>, n: Seq<char>, i: int)
    requires
        find_from(h, n, i) is Some,
    ensures
        i <= find_from(h, n, i)->0,
        occurs_at(h, n, find_from(h, n, i)->0),
        forall|j: int| i <= j < find_from(h, n, i)->0 ==> !occurs_at(h, n, j),
    decreases h.len() + 1 - i,
{
    if i < 0 || i + n.len() > h.len() {
    } else if occurs_at(h, n, i) {
    } else {
        lemma_find_from_found(h, n, i + 1);
    }
}

/// Lemma: a reverse search result is an occurrence at most `i`.
pub proof fn lemma_rfind_upto_found(h: Seq<char>, n: Seq<char>, i: int)
    requires
        rfind_upto(h, n, i) is Some,
    ensures
        0 <= rfind_upto(h, n, i)->0 <= i,
        occurs_at(h, n, rfind_upto(h, n, i)->0),
        forall|j: int| rfind_upto(h, n, i)->0 < j <= i ==> !occurs_at(h, n, j),
    decreases i + 1,
{
    if i < 0 {
    } else if occurs_at(h, n, i) {
    } else {
        lemma_rfind_upto_found(h, n, i - 1);
    }
}

// ---------------------------------------------------------------------------
// Trimming
// ---------------------------------------------------------------------------

/// Whether `c` is whitespace (`char::is_whitespace`).
pub fn is_whitespace_exec(c: char) -> (res: bool)
    ensures
        res == is_whitespace(c),
{
    c == ' ' || ('\x09' <= c && c <= '\x0d') || c == '\u{85}' || c == '\u{a0}' || c == '\u{1680}'
        || ('\u{2000}' <= c && c <= '\u{200a}') || c == '\u{2028}' || c == '\u{2029}' || c
        == '\u{202f}' || c == '\u{205f}' || c == '\u{3000}'
}

/// The bounds of the trimmed window `cs[lo..hi]`.
pub fn trim_bounds(cs: &Vec<char>, lo: usize, hi: usize) -> (res: (usize, usize))
    requires
        lo <= hi <= cs@.len(),
    ensures
        lo <= res.0 <= res.1 <= hi,
        cs@.subrange(res.0 as int, res.1 as int) == trim(cs@.subrange(lo as int, hi as int)),
{
    let mut a = lo;
    while a < hi && is_whitespace_exec(cs[a])
        invariant
            lo <= a <= hi <= cs@.len(),
            trim_start(cs@.subrange(lo as int, hi as int)) == trim_start(
                cs@.subrange(a as int, hi as int),
            ),
        decreases hi - a,
    {
        assert(cs@.subrange(a as int, hi as int).drop_first() =~= cs@.subrange(a + 1, hi as int));
        a = a + 1;
    }
    let mut b = hi;
    while b > a && is_whitespace_exec(cs[b - 1])
        invariant
            lo <= a <= b <= hi <= cs@.len(),
            trim_end(cs@.subrange(a as int, hi as int)) == trim_end(
                cs@.subrange(a as int, b as int),
            ),
        decreases b - a,
    {
        assert(cs@.subrange(a as int, b as int).drop_last() =~= cs@.subrange(a as int, b - 1));
        b = b - 1;
    }
    (a, b)
}


// ---------------------------------------------------------------------------
// Prefixes and lines
// ---------------------------------------------------------------------------

/// Whether the window `cs[lo..hi]` begins with `p`.
pub fn starts_with_in(cs: &Vec<char>, lo: usize, hi: usize, p: &Vec<char>) -> (res: bool)
    requires
        lo <= hi <= cs@.len(),
    ensures
        res == starts_with(cs@.subrange(lo as int, hi as int), p@),
{
    if p.len() > hi - lo {
        return false;
    }
    let r = occurs_at_exec(cs, lo, p);
    proof {
        let w = cs@.subrange(lo as int, hi as int);
        assert(w.take(p@.len() as int) =~= cs@.subrange(lo as int, lo + p@.len()));
    }
    r
}

/// The windows of the lines of `cs[lo..hi]`, as `str::lines` yields them.
pub fn line_ranges(cs: &Vec<char>, lo: usize, hi: usize) -> (res: Vec<(usize, usize)>)
    requires
        lo <= hi <= cs@.len(),
    ensures
        res@.len() == lines(cs@.subrange(lo as int, hi as int)).len(),
        forall|k: int|
            0 <= k < res@.len() ==> lo <= #[trigger] res@[k].0 <= res@[k].1 <= hi && cs@.subrange(
                res@[k].0 as int,
                res@[k].1 as int,
            ) == lines(cs@.subrange(lo as int, hi as int))[k],
{
    let ghost all = lines(cs@.subrange(lo as int, hi as int));
    let ghost mut done: Seq<Seq<char>> = seq![];
    let mut res: Vec<(usize, usize)> = Vec::new();
    let mut p = lo;
    while p < hi
        invariant
            lo <= p <= hi <= cs@.len(),
            all == lines(cs@.subrange(lo as int, hi as int)),
            all == done + lines(cs@.subrange(p as int, hi as int)),
            res@.len() == done.len(),
            forall|k: int|
                0 <= k < res@.len() ==> lo <= #[trigger] res@[k].0 <= res@[k].1 <= hi
                    && cs@.subrange(res@[k].0 as int, res@[k].1 as int) == done[k],
        decreases hi - p,
    {
        let ghost rest = cs@.subrange(p as int, hi as int);
        match find_char_in(cs, p, hi, '\n') {
            None => {
                assert(lines(rest) == seq![rest]);
                res.push((p, hi));
                proof {
                    done = done.push(rest);
                    assert(all == done + lines(cs@.subrange(hi as int, hi as int)));
                }
                p = hi;
            },
            Some(i) => {
                proof {
                    lemma_find_from_found(rest, seq!['\n'], 0);
                    assert(rest.skip(i + 1) =~= cs@.subrange(p + i + 1, hi as int));
                    assert(rest.take(i as int) =~= cs@.subrange(p as int, p + i));
                }
                let end = if i > 0 && cs[p + i - 1] == '\r' {
                    proof {
                        assert(cs@.subrange(p as int, p + i).drop_last() =~= cs@.subrange(
                            p as int,
                            p + i - 1,
                        ));
                    }
                    p + i - 1
                } else {
                    p + i
                };
                res.push((p, end));
                proof {
                    done = done.push(strip_cr(rest.take(i as int)));
                    assert(all == done + lines(cs@.subrange(p + i + 1, hi as int)));
                }
                p = p + i + 1;
            },
        }
    }
    proof {
        assert(lines(cs@.subrange(hi as int, hi as int)) == Seq::<Seq<char>>::empty());
        assert(all =~= done);
    }
    res
}


/// Whether two character vectors are equal.
pub fn same_chars(a: &Vec<char>, b: &Vec<char>) -> (res: bool)
    ensures
        res == (a@ == b@),
{
    if a.len() != b.len() {
        return false;
    }
    let mut i: usize = 0;
    while i < a.len()
        invariant
            a@.len() == b@.len(),
            0 <= i <= a@.len(),
            forall|j: int| 0 <= j < i ==> a@[j] == b@[j],
        decreases a@.len() - i,
    {
        if a[i] != b[i] {
            return false;
        }
        i = i + 1;
    }
    assert(a@ =~= b@);
    true
}


// ---------------------------------------------------------------------------
// UTF-8 lengths and byte truncation
// ---------------------------------------------------------------------------

/// The length of the UTF-8 encoding of `s` (`str::len`).
pub open spec fn byte_len(s: Seq<char>) -> nat {
    vstd::utf8::encode_utf8(s).len()
}

/// Some prefix of `s` is exactly `n` bytes long, or all of `s` fits in `n`
/// bytes: `String::truncate(n)` does not panic on `s`.
pub open spec fn truncatable_at(s: Seq<char>, n: nat) -> bool {
    byte_len(s) <= n || exists|k: int| 0 <= k <= s.len() && byte_len(s.take(k)) == n
}

/// `t` is what `String::truncate(n)` leaves of `s`: `s` itself if it fits
/// in `n` bytes, else its prefix of exactly `n` bytes.
pub open spec fn is_byte_truncation(s: Seq<char>, n: nat, t: Seq<char>) -> bool {
    &&& t.len() <= s.len()
    &&& t == s.take(t.len() as int)
    &&& byte_len(s) <= n ==> t == s
    &&& byte_len(s) > n ==> byte_len(t) == n
}

/// The number of bytes that `c` takes in UTF-8 (`char::len_utf8`).
pub fn utf8_width(c: char) -> (res: usize)
    ensures
        res == vstd::utf8::encode_scalar(c as u32).len(),
        1 <= res <= 4,
{
    proof {
        broadcast use vstd::utf8::char_is_scalar;
        assert(vstd::utf8::is_scalar(c as u32));
    }
    let v = c as u32;
    if v < 0x80 {
        1
    } else if v < 0x800 {
        2
    } else if v < 0x10000 {
        3
    } else {
        4
    }
}

/// Lemma: the encoding of a concatenation is the concatenation of the encodings.
pub proof fn lemma_encode_utf8_append(a: Seq<char>, b: Seq<char>)
    ensures
        vstd::utf8::encode_utf8(a + b) == vstd::utf8::encode_utf8(a) + vstd::utf8::encode_utf8(b),
    decreases a.len(),
{
    if a.len() == 0 {
        assert(a + b =~= b);
        assert(vstd::utf8::encode_utf8(a) + vstd::utf8::encode_utf8(b) =~= vstd::utf8::encode_utf8(
            b,
        ));
    } else {
        lemma_encode_utf8_append(a.drop_first(), b);
        assert((a + b).drop_first() =~= a.drop_first() + b);
        assert((a + b)[0] == a[0]);
        assert(vstd::utf8::encode_utf8(a + b) =~= vstd::utf8::encode_scalar(a[0] as u32)
            + vstd::utf8::encode_utf8(a.drop_first() + b));
    }
}

/// Lemma: the byte length of a prefix grows with the prefix.
pub proof fn lemma_byte_len_prefix_monotone(s: Seq<char>, k1: int, k2: int)
    requires
        0 <= k1 <= k2 <= s.len(),
    ensures
        byte_len(s.take(k1)) <= byte_len(s.take(k2)),
        k1 < k2 ==> byte_len(s.take(k1)) < byte_len(s.take(k2)),
{
    assert(s.take(k2) =~= s.take(k1) + s.subrange(k1, k2));
    lemma_encode_utf8_append(s.take(k1), s.subrange(k1, k2));
    if k1 < k2 {
        let rest = s.subrange(k1, k2);
        assert(vstd::utf8::encode_utf8(rest) =~= vstd::utf8::encode_scalar(rest[0] as u32)
            + vstd::utf8::encode_utf8(rest.drop_first()));
    }
}

/// Lemma: one more character adds its width to the byte length.
pub proof fn lemma_byte_len_push(s: Seq<char>, k: int)
    requires
        0 <= k < s.len(),
    ensures
        byte_len(s.take(k + 1)) == byte_len(s.take(k)) + vstd::utf8::encode_scalar(s[k] as u32).len(),
{
    assert(s.take(k + 1) =~= s.take(k) + seq![s[k]]);
    lemma_encode_utf8_append(s.take(k), seq![s[k]]);
    assert(seq![s[k]].drop_first() =~= Seq::<char>::empty());
    assert(vstd::utf8::encode_utf8(seq![s[k]]) =~= vstd::utf8::encode_scalar(s[k] as u32)
        + vstd::utf8::encode_utf8(Seq::<char>::empty()));
}

/// `s` cut to at most `n` bytes, as `String::truncate(n)` leaves it.
pub fn truncate_bytes(s: &str, n: usize) -> (res: String)
    requires
        truncatable_at(s@, n as nat),
    ensures
        is_byte_truncation(s@, n as nat, res@),
{
    let cs = chars_of(s);
    let mut total: usize = 0;
    let mut i: usize = 0;
    assert(cs@.take(0) =~= Seq::<char>::empty());
    while i < cs.len()
        invariant
            cs@ == s@,
            0 <= i <= cs@.len(),
            total == byte_len(cs@.take(i as int)),
            total <= n,
        ensures
            0 <= i <= cs@.len(),
            total == byte_len(cs@.take(i as int)),
            total <= n,
            i == cs@.len() || byte_len(cs@.take(i + 1)) > n,
        decreases cs@.len() - i,
    {
        let w = utf8_width(cs[i]);
        proof {
            lemma_byte_len_push(cs@, i as int);
        }
        if w > n - total {
            break;
        }
        total = total + w;
        i = i + 1;
    }
    proof {
        if i == cs@.len() {
            assert(cs@.take(i as int) =~= cs@);
        } else {
            // total < n < total + width: no prefix has exactly n bytes unless total == n.
            if total < n {
                assert forall|k: int| 0 <= k <= cs@.len() implies byte_len(cs@.take(k)) != n by {
                    if k <= i {
                        lemma_byte_len_prefix_monotone(cs@, k, i as int);
                    } else {
                        lemma_byte_len_prefix_monotone(cs@, i + 1, k);
                    }
                }
                lemma_byte_len_prefix_monotone(cs@, i + 1, cs@.len() as int);
                assert(cs@.take(cs@.len() as int) =~= cs@);
            }
            lemma_byte_len_prefix_monotone(cs@, i + 1, cs@.len() as int);
            assert(cs@.take(cs@.len() as int) =~= cs@);
        }
    }
    string_of_range(&cs, 0, i)
}


// ---------------------------------------------------------------------------
// ASCII case folding
// ---------------------------------------------------------------------------

/// The code of `c` with ASCII upper-case letters mapped to lower case.
pub open spec fn ascii_lower_code(c: char) -> u32 {
    if 'A' <= c && c <= 'Z' {
        (c as u32 + 32) as u32
    } else {
        c as u32
    }
}

/// `a` and `b` are equal up to ASCII case (`str::eq_ignore_ascii_case`).
pub open spec fn eq_ignore_ascii_case(a: Seq<char>, b: Seq<char>) -> bool {
    a.len() == b.len() && forall|i: int| 0 <= i < a.len() ==> ascii_lower_code(a[i]) == ascii_lower_code(b[i])
}

/// Whether `a` and `b` are equal up to ASCII case.
pub fn eq_ignore_ascii_case_exec(a: &Vec<char>, b: &Vec<char>) -> (res: bool)
    ensures
        res == eq_ignore_ascii_case(a@, b@),
{
    if a.len() != b.len() {
        return false;
    }
    let mut i: usize = 0;
    while i < a.len()
        invariant
            a@.len() == b@.len(),
            0 <= i <= a@.len(),
            forall|j: int| 0 <= j < i ==> ascii_lower_code(a@[j]) == ascii_lower_code(b@[j]),
        decreases a@.len() - i,
    {
        let x = a[i];
        let y = b[i];
        let lx: u32 = if 'A' <= x && x <= 'Z' { x as u32 + 32 } else { x as u32 };
        let ly: u32 = if 'A' <= y && y <= 'Z' { y as u32 + 32 } else { y as u32 };
        if lx != ly {
            return false;
        }
        i = i + 1;
    }
    true
}


// ---------------------------------------------------------------------------
// Decimal numbers
// ---------------------------------------------------------------------------

/// The ASCII digit for `d` (below ten).
pub open spec fn digit_char(d: nat) -> char {
    ((d + 48) as u8) as char
}

/// The decimal representation of `n`, as `Display` writes an integer.
pub open spec fn decimal(n: nat) -> Seq<char>
    decreases n,
{
    if n < 10 {
        seq![digit_char(n)]
    } else {
        decimal(n / 10).push(digit_char(n % 10))
    }
}

/// The decimal representation of a signed integer.
pub open spec fn signed_decimal(n: int) -> Seq<char> {
    if n < 0 {
        seq!['-'] + decimal((-n) as nat)
    } else {
        decimal(n as nat)
    }
}

/// Appends the decimal representation of `n` to `s`.
pub fn push_decimal(s: &mut String, n: u64)
    ensures
        final(s)@ == old(s)@ + decimal(n as nat),
    decreases n,
{
    if n >= 10 {
        push_decimal(s, n / 10);
    }
    let d: u8 = (n % 10) as u8;
    push_char(s, (d + 48) as char);
}

/// Appends the decimal representation of a signed `n` to `s`.
pub fn push_signed_decimal(s: &mut String, n: i64)
    ensures
        final(s)@ == old(s)@ + signed_decimal(n as int),
{
    if n < 0 {
        push_char(s, '-');
        let magnitude: u64 = (0i128 - n as i128) as u64;
        push_decimal(s, magnitude);
    } else {
        push_decimal(s, n as u64);
    }
}

/// The value of a string of ASCII digits.
pub open spec fn digits_value(s: Seq<char>) -> nat
    decreases s.len(),
{
    if s.len() == 0 {
        0
    } else {
        digits_value(s.drop_last()) * 10 + ((s.last() as u32) - 48) as nat
    }
}

/// Every character of `s` is an ASCII digit.
pub open spec fn all_digits(s: Seq<char>) -> bool {
    forall|i: int| 0 <= i < s.len() ==> '0' <= #[trigger] s[i] && s[i] <= '9'
}

/// What `str::parse::<u64>` gives for `s`: an optional `+`, then at least
/// one ASCII digit and nothing else, with a value that fits in 64 bits.
pub open spec fn spec_parse_u64(s: Seq<char>) -> Option<u64> {
    let d = if s.len() > 0 && s[0] == '+' {
        s.drop_first()
    } else {
        s
    };
    if d.len() > 0 && all_digits(d) && digits_value(d) <= u64::MAX {
        Some(digits_value(d) as u64)
    } else {
        None
    }
}

/// Lemma: appending a digit never makes the value smaller.
pub proof fn lemma_digits_value_grows(s: Seq<char>, k: int)
    requires
        0 <= k <= s.len(),
    ensures
        digits_value(s.take(k)) <= digits_value(s),
    decreases s.len() - k,
{
    if k < s.len() {
        lemma_digits_value_grows(s.drop_last(), k);
        assert(s.drop_last().take(k) =~= s.take(k));
    } else {
        assert(s.take(k) =~= s);
    }
}

/// Parses a decimal `u64` as `str::parse::<u64>` does.
pub fn parse_u64(text: &str) -> (res: Option<u64>)
    ensures
        res == spec_parse_u64(text@),
{
    let cs = chars_of(text);
    let start: usize = if cs.len() > 0 && cs[0] == '+' { 1 } else { 0 };
    let ghost d = if cs@.len() > 0 && cs@[0] == '+' { cs@.drop_first() } else { cs@ };
    assert(d =~= cs@.subrange(start as int, cs@.len() as int));
    if start >= cs.len() {
        return None;
    }
    let mut value: u64 = 0;
    let mut i: usize = start;
    assert(d.take(0) =~= Seq::<char>::empty());
    while i < cs.len()
        invariant
            cs@ == text@,
            d == cs@.subrange(start as int, cs@.len() as int),
            d == (if cs@.len() > 0 && cs@[0] == '+' { cs@.drop_first() } else { cs@ }),
            start <= i <= cs@.len(),
            all_digits(d.take(i - start)),
            value == digits_value(d.take(i - start)),
        decreases cs@.len() - i,
    {
        let c = cs[i];
        let ghost k: int = i - start;
        assert(d.take(k + 1).drop_last() =~= d.take(k));
        assert(d.take(k + 1).last() == c);
        if !('0' <= c && c <= '9') {
            assert(!all_digits(d)) by {
                assert(d[k] == c);
                assert(!('0' <= d[k] && d[k] <= '9'));
            }
            return None;
        }
        let digit: u64 = (c as u32 - 48) as u64;
        if value > (u64::MAX - digit) / 10 {
            proof {
                lemma_digits_value_grows(d, k + 1);
                let v = value as int;
                let g = digit as int;
                assert(v * 10 + g > u64::MAX) by (nonlinear_arith)
                    requires
                        v > (u64::MAX - g) / 10,
                        0 <= g <= 9,
                ;
                assert(digits_value(d.take(k + 1)) == v * 10 + g);
            }
            return None;
        }
        value = value * 10 + digit;
        i = i + 1;
    }
    assert(d.take(i - start) =~= d);
    Some(value)
}



/// The number of newlines in `s`.
pub open spec fn newline_count(s: Seq<char>) -> nat
    decreases s.len(),
{
    if s.len() == 0 {
        0
    } else {
        newline_count(s.drop_last()) + if s.last() == '\n' {
            1nat
        } else {
            0nat
        }
    }
}

/// `s` holds no newline.
pub open spec fn newline_free(s: Seq<char>) -> bool {
    forall|i: int| 0 <= i < s.len() ==> s[i] != '\n'
}

/// Lemma: newlines of a concatenation add up.
pub proof fn lemma_newline_count_add(a: Seq<char>, b: Seq<char>)
    ensures
        newline_count(a + b) == newline_count(a) + newline_count(b),
    decreases b.len(),
{
    if b.len() == 0 {
        assert(a + b =~= a);
    } else {
        lemma_newline_count_add(a, b.drop_last());
        assert((a + b).drop_last() =~= a + b.drop_last());
        assert((a + b).last() == b.last());
    }
}

/// Lemma: text without newlines counts none.
pub proof fn lemma_newline_free_count(s: Seq<char>)
    requires
        newline_free(s),
    ensures
        newline_count(s) == 0,
    decreases s.len(),
{
    if s.len() > 0 {
        lemma_newline_free_count(s.drop_last());
    }
}

/// Lemma: lines without newlines, joined, count one newline each.
pub proof fn lemma_join_lines_newline_count(ls: Seq<Seq<char>>)
    requires
        forall|i: int| 0 <= i < ls.len() ==> newline_free(#[trigger] ls[i]),
    ensures
        newline_count(join_lines(ls)) == ls.len(),
    decreases ls.len(),
{
    if ls.len() > 0 {
        assert forall|i: int| 0 <= i < ls.drop_first().len() implies newline_free(
            #[trigger] ls.drop_first()[i],
        ) by {
            assert(ls.drop_first()[i] == ls[i + 1]);
        }
        lemma_join_lines_newline_count(ls.drop_first());
        assert(newline_free(ls[0]));
        lemma_newline_free_count(ls[0]);
        lemma_newline_count_add(ls[0], seq!['\n']);
        lemma_newline_count_add(ls[0] + seq!['\n'], join_lines(ls.drop_first()));
        assert(newline_count(seq!['\n']) == 1) by {
            assert(seq!['\n'].drop_last() =~= Seq::<char>::empty());
            reveal_with_fuel(newline_count, 2);
        }
    }
}

/// Lemma: a search that finds nothing from `i` on finds no occurrence there.
pub proof fn lemma_find_from_none(h: Seq<char>, n: Seq<char>, i: int, j: int)
    requires
        find_from(h, n, i) is None,
        0 <= i <= j,
    ensures
        !occurs_at(h, n, j),
    decreases h.len() + 1 - i,
{
    if i + n.len() > h.len() {
    } else if j > i {
        lemma_find_from_none(h, n, i + 1, j);
    }
}

/// Lemma: the lines of a text hold no newline.
pub proof fn lemma_lines_newline_free(s: Seq<char>)
    ensures
        forall|i: int| 0 <= i < lines(s).len() ==> newline_free(#[trigger] lines(s)[i]),
    decreases s.len(),
{
    if s.len() > 0 {
        let nl = seq!['\n'];
        match find(s, nl) {
            None => {
                assert forall|j: int| 0 <= j < s.len() implies s[j] != '\n' by {
                    lemma_find_from_none(s, nl, 0, j);
                    if s[j] == '\n' {
                        assert(s.subrange(j, j + 1) =~= nl);
                    }
                }
                assert(lines(s) == seq![s]);
            },
            Some(k) => {
                lemma_find_from_found(s, nl, 0);
                lemma_lines_newline_free(s.skip(k + 1));
                let first = s.take(k);
                assert forall|j: int| 0 <= j < first.len() implies first[j] != '\n' by {
                    assert(first[j] == s[j]);
                    assert(!occurs_at(s, nl, j));
                    if s[j] == '\n' {
                        assert(s.subrange(j, j + 1) =~= nl);
                        assert(occurs_at(s, nl, j));
                    }
                }
                let line = strip_cr(first);
                assert forall|j: int| 0 <= j < line.len() implies line[j] != '\n' by {
                    assert(line[j] == first[j]);
                }
                let ls = lines(s);
                assert(ls == seq![line] + lines(s.skip(k + 1)));
                assert forall|i: int| 0 <= i < ls.len() implies newline_free(#[trigger] ls[i]) by {
                    if i > 0 {
                        assert(ls[i] == lines(s.skip(k + 1))[i - 1]);
                    }
                }
            },
        }
    }
}

/// Lemma: a text that contains `n` has a last occurrence of it, at or after
/// any occurrence.
pub proof fn lemma_rfind_upto_reaches(h: Seq<char>, n: Seq<char>, k: int, i: int)
    requires
        occurs_at(h, n, i),
        i <= k,
    ensures
        rfind_upto(h, n, k) is Some,
        rfind_upto(h, n, k)->0 >= i,
    decreases k - i,
{
    if !occurs_at(h, n, k) {
        lemma_rfind_upto_reaches(h, n, k - 1, i);
    }
}

/// Lemma: what contains `n` has a last occurrence of `n`.
pub proof fn lemma_contains_rfind(h: Seq<char>, n: Seq<char>)
    requires
        contains(h, n),
    ensures
        rfind(h, n) is Some,
{
    lemma_find_from_found(h, n, 0);
    lemma_rfind_upto_reaches(h, n, h.len() - n.len(), find(h, n)->0);
}

/// Lemma: removing leading newlines leaves a suffix.
pub proof fn lemma_trim_leading_newlines_suffix(s: Seq<char>) -> (t: int)
    ensures
        0 <= t <= s.len(),
        trim_leading_newlines(s) == s.skip(t),
    decreases s.len(),
{
    if s.len() > 0 && s[0] == '\n' {
        let t = lemma_trim_leading_newlines_suffix(s.drop_first());
        assert(s.drop_first().skip(t) =~= s.skip(t + 1));
        t + 1
    } else {
        assert(s.skip(0) =~= s);
        0
    }
}

// ---------------------------------------------------------------------------
// Laws
// ---------------------------------------------------------------------------

/// A byte truncation of `s` to `n` bytes is at most `n` bytes long and is a
/// prefix of `s`.
pub proof fn lemma_truncation_fits(s: Seq<char>, n: nat, t: Seq<char>)
    requires
        is_byte_truncation(s, n, t),
    ensures
        byte_len(t) <= n,
        s.take(t.len() as int) == t,
{
}

/// Lemma: the decimal representation consists of digits and has the value
/// it represents.
pub proof fn lemma_decimal_digits(n: nat)
    ensures
        decimal(n).len() > 0,
        all_digits(decimal(n)),
        digits_value(decimal(n)) == n,
    decreases n,
{
    let d = decimal(n);
    if n < 10 {
        assert(d.drop_last() =~= Seq::<char>::empty());
        assert(((n + 48) as u8) as char as u32 == n + 48);
        assert(d.last() as u32 == n + 48);
        assert(digits_value(d) == digits_value(d.drop_last()) * 10 + ((d.last() as u32) - 48) as nat);
    } else {
        lemma_decimal_digits(n / 10);
        let p = decimal(n / 10);
        assert(d.drop_last() =~= p);
        let r = (n % 10) as nat;
        assert(((r + 48) as u8) as char as u32 == r + 48);
        assert(d.last() as u32 == r + 48);
        assert(digits_value(d) == digits_value(d.drop_last()) * 10 + ((d.last() as u32) - 48) as nat);
        assert((n / 10) * 10 + n % 10 == n);
        assert forall|i: int| 0 <= i < d.len() implies '0' <= #[trigger] d[i] && d[i] <= '9' by {
            if i < p.len() {
                assert(d[i] == p[i]);
            }
        }
    }
}

/// Reading back a number's decimal representation gives the number
/// (`u64::to_string` followed by `str::parse::<u64>`).
pub proof fn lemma_parse_decimal_roundtrip(n: u64)
    ensures
        spec_parse_u64(decimal(n as nat)) == Some(n),
{
    lemma_decimal_digits(n as nat);
    let d = decimal(n as nat);
    assert('0' <= d[0] && d[0] <= '9');
}

} // verus!
