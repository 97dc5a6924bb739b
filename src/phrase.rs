//! Wake-phrase matching on transcribed text.
//!
//! Text is normalized by lowercasing it and dropping every character that is
//! neither alphanumeric nor whitespace; the trigger phrase must then occur as
//! a contiguous run of characters.
use vstd::prelude::*;
use vstd::string::*;

verus! {

/// What `str::to_lowercase` returns for a text.
pub uninterp spec fn lower_of(s: Seq<char>) -> Seq<char>;

/// What `char::is_alphanumeric` returns for a character.
pub uninterp spec fn alnum_of(c: char) -> bool;

/// What `char::is_whitespace` returns for a character.
pub uninterp spec fn space_of(c: char) -> bool;

/// Relies on `str::to_lowercase`: the result depends on the text alone.
#[verifier::external_body]
fn lowercase(s: &str) -> (r: String)
    ensures
        r@ == lower_of(s@),
{
    s.to_lowercase()
}

/// Relies on `char::is_alphanumeric`: the Unicode class of one character.
#[verifier::external_body]
fn char_is_alphanumeric(c: char) -> (r: bool)
    ensures
        r == alnum_of(c),
{
    c.is_alphanumeric()
}

/// Relies on `char::is_whitespace`: the Unicode class of one character.
#[verifier::external_body]
fn char_is_whitespace(c: char) -> (r: bool)
    ensures
        r == space_of(c),
{
    c.is_whitespace()
}

/// Relies on `String::push`: appends one character at the end.
#[verifier::external_body]
fn push_char(s: &mut String, c: char)
    ensures
        final(s)@ == old(s)@.push(c),
{
    s.push(c)
}

/// A character that survives normalization.
pub open spec fn is_kept(c: char) -> bool {
    alnum_of(c) || space_of(c)
}

/// `s` without the characters that are neither alphanumeric nor whitespace.
pub open spec fn stripped(s: Seq<char>) -> Seq<char> {
    s.filter(|c: char| is_kept(c))
}

/// The normalized form of a transcript: lowercased, then stripped.
pub open spec fn cleaned(text: Seq<char>) -> Seq<char> {
    stripped(lower_of(text))
}

/// `p` occurs in `t` as a contiguous run of characters.
pub open spec fn occurs_in(p: Seq<char>, t: Seq<char>) -> bool {
    exists|i: int| 0 <= i && i + p.len() <= t.len() && #[trigger] t.subrange(i, i + p.len()) == p
}

/// The characters of `s`, in order.
fn chars_of(s: &str) -> (r: Vec<char>)
    ensures
        r@ == s@,
{
    let n = s.unicode_len();
    let mut out: Vec<char> = Vec::new();
    let mut i: usize = 0;
    while i < n
        invariant
            n == s@.len(),
            i <= n,
            out@ == s@.subrange(0, i as int),
        decreases n - i,
    {
        let c = s.get_char(i);
        out.push(c);
        i = i + 1;
        assert(out@ =~= s@.subrange(0, i as int));
    }
    assert(out@ =~= s@);
    out
}

/// Whether `p` occurs in `t` as a contiguous run.
fn occurs(p: &Vec<char>, t: &Vec<char>) -> (r: bool)
    ensures
        r == occurs_in(p@, t@),
{
    let plen = p.len();
    let tlen = t.len();
    if plen > tlen {
        return false;
    }
    let mut i: usize = 0;
    while i <= tlen - plen
        invariant
            plen == p@.len(),
            tlen == t@.len(),
            plen <= tlen,
            i <= tlen - plen + 1,
            forall|k: int| 0 <= k < i ==> #[trigger] t@.subrange(k, k + plen) != p@,
        decreases tlen - plen + 1 - i,
    {
        let mut same = true;
        let mut j: usize = 0;
        while j < plen
            invariant
                plen == p@.len(),
                tlen == t@.len(),
                i + plen <= tlen,
                j <= plen,
                same == (forall|m: int| 0 <= m < j ==> t@[i + m] == p@[m]),
            decreases plen - j,
        {
            if t[i + j] != p[j] {
                same = false;
            }
            j = j + 1;
        }
        if same {
            assert(t@.subrange(i as int, i + plen) =~= p@);
            return true;
        }
        assert(t@.subrange(i as int, i + plen) != p@) by {
            let m = choose|m: int| 0 <= m < plen && t@[i + m] != p@[m];
            assert(t@.subrange(i as int, i + plen)[m] != p@[m]);
        }
        i = i + 1;
    }
    false
}

/// Drops every character of `folded` that is neither alphanumeric nor
/// whitespace, keeping the others in order.
pub fn strip_symbols(folded: &str) -> (r: String)
    ensures
        r@ == stripped(folded@),
{
    let n = folded.unicode_len();
    let mut out = String::new();
    let mut i: usize = 0;
    proof {
        reveal(Seq::filter);
    }
    while i < n
        invariant
            n == folded@.len(),
            i <= n,
            out@ == stripped(folded@.subrange(0, i as int)),
        decreases n - i,
    {
        let c = folded.get_char(i);
        if char_is_alphanumeric(c) || char_is_whitespace(c) {
            push_char(&mut out, c);
        }
        proof {
            let next = folded@.subrange(0, i + 1);
            assert(next.drop_last() =~= folded@.subrange(0, i as int));
            assert(next.last() == c);
            let prev = folded@.subrange(0, i as int);
            reveal(Seq::filter);
            assert(stripped(next) == if is_kept(c) {
                stripped(prev).push(c)
            } else {
                stripped(prev)
            });
        }
        i = i + 1;
    }
    assert(folded@.subrange(0, n as int) =~= folded@);
    out
}

/// Lowercases a transcript and drops its symbols, for matching only.
pub fn normalize_transcript(text: &str) -> (r: String)
    ensures
        r@ == cleaned(text@),
{
    let folded = lowercase(text);
    strip_symbols(folded.as_str())
}

/// Whether `phrase` occurs in `text` as a contiguous run of characters.
pub fn contains_phrase(text: &str, phrase: &str) -> (r: bool)
    ensures
        r == occurs_in(phrase@, text@),
{
    let t = chars_of(text);
    let p = chars_of(phrase);
    occurs(&p, &t)
}

/// Whether `phrase` occurs in an already lowercased text once its symbols
/// are dropped.
pub fn matches_folded(folded: &str, phrase: &str) -> (r: bool)
    ensures
        r == occurs_in(phrase@, stripped(folded@)),
{
    let s = strip_symbols(folded);
    contains_phrase(s.as_str(), phrase)
}

/// Whether `phrase` occurs in the normalized form of `text`.
pub fn heard_phrase(text: &str, phrase: &str) -> (r: bool)
    ensures
        r == occurs_in(phrase@, cleaned(text@)),
{
    let folded = lowercase(text);
    matches_folded(folded.as_str(), phrase)
}

} // verus!
