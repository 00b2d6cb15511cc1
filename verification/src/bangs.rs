//! Shorthand links: each takes what the user typed and gives the URL that
//! the bot replies with.

use vstd::prelude::*;
use crate::text::{chars_of, push_char, push_str};

verus! {

/// `s` with every space written as `%20`.
pub open spec fn spaces_encoded(s: Seq<char>) -> Seq<char>
    decreases s.len(),
{
    if s.len() == 0 {
        seq![]
    } else {
        spaces_encoded(s.drop_last()) + if s.last() == ' ' {
            "%20"@
        } else {
            seq![s.last()]
        }
    }
}

/// Appends `s` with its spaces written as `%20` (`str::replace(" ", "%20")`).
pub fn push_spaces_encoded(out: &mut String, s: &str)
    ensures
        final(out)@ == old(out)@ + spaces_encoded(s@),
{
    let cs = chars_of(s);
    let mut i: usize = 0;
    assert(cs@.take(0) =~= Seq::<char>::empty());
    while i < cs.len()
        invariant
            cs@ == s@,
            0 <= i <= cs@.len(),
            out@ == old(out)@ + spaces_encoded(cs@.take(i as int)),
        decreases cs@.len() - i,
    {
        assert(cs@.take(i + 1).drop_last() =~= cs@.take(i as int));
        assert(cs@.take(i + 1).last() == cs@[i as int]);
        if cs[i] == ' ' {
            push_str(out, "%20");
        } else {
            push_char(out, cs[i]);
        }
        i = i + 1;
    }
    assert(cs@.take(i as int) =~= cs@);
}

/// The GitHub URL for `bang`.
pub fn gh_bang(bang: &str) -> (res: String)
    ensures
        res@ == "https://github.com/"@ + bang@,
{
    let mut s = String::new();
    push_str(&mut s, "https://github.com/");
    push_str(&mut s, bang);
    s
}

/// The Codeberg URL for `bang`.
pub fn codeberg_bang(bang: &str) -> (res: String)
    ensures
        res@ == "https://codeberg.org/"@ + bang@,
{
    let mut s = String::new();
    push_str(&mut s, "https://codeberg.org/");
    push_str(&mut s, bang);
    s
}

/// The DuckDuckGo search URL for `bang`.
pub fn duckduckgo_bang(bang: &str) -> (res: String)
    ensures
        res@ == "https://duckduckgo.com/search?q="@ + spaces_encoded(bang@),
{
    let mut s = String::new();
    push_str(&mut s, "https://duckduckgo.com/search?q=");
    push_spaces_encoded(&mut s, bang);
    s
}

/// The Google search URL for `bang`.
pub fn google_bang(bang: &str) -> (res: String)
    ensures
        res@ == "https://google.com/search?q="@ + spaces_encoded(bang@),
{
    let mut s = String::new();
    push_str(&mut s, "https://google.com/search?q=");
    push_spaces_encoded(&mut s, bang);
    s
}

/// The English Wikipedia URL for `bang`.
pub fn wikipedia_bang(bang: &str) -> (res: String)
    ensures
        res@ == "https://en.wikipedia.org/wiki/"@ + spaces_encoded(bang@),
{
    let mut s = String::new();
    push_str(&mut s, "https://en.wikipedia.org/wiki/");
    push_spaces_encoded(&mut s, bang);
    s
}

/// An encoded search term has no spaces left in it, and a term without
/// spaces is left as it is.
pub proof fn lemma_spaces_encoded_has_no_spaces(s: Seq<char>)
    ensures
        !spaces_encoded(s).contains(' '),
        !s.contains(' ') ==> spaces_encoded(s) == s,
    decreases s.len(),
{
    if s.len() > 0 {
        lemma_spaces_encoded_has_no_spaces(s.drop_last());
        let prev = spaces_encoded(s.drop_last());
        let tail = if s.last() == ' ' {
            "%20"@
        } else {
            seq![s.last()]
        };
        assert(spaces_encoded(s) == prev + tail);
        reveal_strlit("%20");
        assert forall|i: int| 0 <= i < (prev + tail).len() implies (prev + tail)[i] != ' ' by {
            if i < prev.len() {
                assert((prev + tail)[i] == prev[i]);
            } else {
                assert((prev + tail)[i] == tail[i - prev.len()]);
            }
        }
        if !s.contains(' ') {
            assert forall|i: int| 0 <= i < s.drop_last().len() implies s.drop_last()[i] != ' ' by {
                assert(s.drop_last()[i] == s[i]);
            }
            assert(s[s.len() - 1] != ' ');
            assert(s.drop_last() + seq![s.last()] =~= s);
        }
    }
}

} // verus!
