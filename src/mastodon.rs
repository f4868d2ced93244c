//! The account data the bio updater reads, and the rule that rewrites the bio.

use crate::text::{chars_of, prefix_string};
use vstd::prelude::*;

verus! {

pub struct AccountSource {
    /// The bio, as the account holder wrote it.
    pub note: String,
}

pub struct Account {
    pub acct: String,
    pub source: AccountSource,
}

/// `pat` occurs in `s` starting at `i`.
pub open spec fn occurs_at(s: Seq<char>, pat: Seq<char>, i: int) -> bool {
    0 <= i && i + pat.len() <= s.len() && s.subrange(i, i + pat.len()) == pat
}

/// Where `pat` first occurs in `s` at or after `i`, or `s.len() + 1` if nowhere.
pub open spec fn find_from(s: Seq<char>, pat: Seq<char>, i: int) -> int
    decreases s.len() + 1 - i,
{
    if i < 0 || i + pat.len() > s.len() {
        s.len() as int + 1
    } else if occurs_at(s, pat, i) {
        i
    } else {
        find_from(s, pat, i + 1)
    }
}

/// The part of `s` before the first occurrence of `pat`; all of `s` if it has none.
pub open spec fn before(s: Seq<char>, pat: Seq<char>) -> Seq<char> {
    let at = find_from(s, pat, 0);
    if at <= s.len() {
        s.take(at)
    } else {
        s
    }
}

/// Unicode white space, as `char::is_whitespace` defines it.
pub open spec fn is_white(c: char) -> bool {
    ||| '\t' <= c && c <= '\r'
    ||| c == ' '
    ||| c == '\u{85}'
    ||| c == '\u{a0}'
    ||| c == '\u{1680}'
    ||| '\u{2000}' <= c && c <= '\u{200a}'
    ||| c == '\u{2028}'
    ||| c == '\u{2029}'
    ||| c == '\u{202f}'
    ||| c == '\u{205f}'
    ||| c == '\u{3000}'
}

/// `s` without its trailing white space.
pub open spec fn trim_end(s: Seq<char>) -> Seq<char>
    decreases s.len(),
{
    if s.len() > 0 && is_white(s.last()) {
        trim_end(s.drop_last())
    } else {
        s
    }
}

/// The bio with the notice of what is playing: the account holder's own
/// text (all before an earlier notice, trailing white space removed), a blank
/// line, and the new notice.
pub open spec fn bio_spec(note: Seq<char>, notice: Seq<char>) -> Seq<char> {
    trim_end(before(note, "Last listening to:"@)) + "\n\nLast listening to: "@ + notice
}

fn is_whitespace(c: char) -> (r: bool)
    ensures
        r == is_white(c),
{
    ('\t' <= c && c <= '\r') || c == ' ' || c == '\u{85}' || c == '\u{a0}' || c == '\u{1680}' || ('\u{2000}' <= c
        && c <= '\u{200a}') || c == '\u{2028}' || c == '\u{2029}' || c == '\u{202f}' || c == '\u{205f}' || c
        == '\u{3000}'
}

fn occurs_here(s: &Vec<char>, pat: &Vec<char>, i: usize) -> (r: bool)
    requires
        i + pat@.len() <= s@.len(),
    ensures
        r == occurs_at(s@, pat@, i as int),
{
    let slen = s.len();
    let mut k: usize = 0;
    while k < pat.len()
        invariant
            slen == s@.len(),
            k <= pat@.len(),
            i + pat@.len() <= s@.len(),
            forall|m: int| 0 <= m < k ==> s@[i + m] == pat@[m],
        decreases pat@.len() - k,
    {
        assert(i + k < s@.len());
        if s[i + k] != pat[k] {
            assert(s@.subrange(i as int, i + pat@.len())[k as int] != pat@[k as int]);
            return false;
        }
        k = k + 1;
    }
    assert(s@.subrange(i as int, i + pat@.len()) =~= pat@);
    true
}

/// How many characters of `s` come before the first occurrence of `pat`.
fn position_of(s: &Vec<char>, pat: &Vec<char>) -> (r: usize)
    ensures
        r as int == if find_from(s@, pat@, 0) <= s@.len() {
            find_from(s@, pat@, 0)
        } else {
            s@.len() as int
        },
{
    if pat.len() > s.len() {
        return s.len();
    }
    let last = s.len() - pat.len();
    let mut i: usize = 0;
    loop
        invariant
            last == s@.len() - pat@.len(),
            i <= last,
            find_from(s@, pat@, 0) == find_from(s@, pat@, i as int),
        decreases last - i,
    {
        if occurs_here(s, pat, i) {
            return i;
        }
        if i == last {
            assert(find_from(s@, pat@, i + 1) == s@.len() + 1);
            return s.len();
        }
        i = i + 1;
    }
}

/// How many characters of `cs` remain once the white space at the end of its
/// first `end` is removed.
fn trimmed_len(cs: &Vec<char>, end: usize) -> (r: usize)
    requires
        end <= cs@.len(),
    ensures
        r <= end,
        cs@.take(r as int) == trim_end(cs@.take(end as int)),
{
    let mut n = end;
    while n > 0 && is_whitespace(cs[n - 1])
        invariant
            n <= end <= cs@.len(),
            trim_end(cs@.take(n as int)) == trim_end(cs@.take(end as int)),
        decreases n,
    {
        assert(cs@.take(n as int).drop_last() =~= cs@.take(n - 1));
        n = n - 1;
    }
    n
}

/// Rewrites a bio so that it ends with `notice`, replacing the notice that an
/// earlier rewrite left.
pub fn compose_bio(note: &str, notice: &str) -> (r: String)
    ensures
        r@ == bio_spec(note@, notice@),
{
    let cs = chars_of(note);
    let marker = chars_of("Last listening to:");
    let end = position_of(&cs, &marker);
    proof {
        let at = find_from(note@, marker@, 0);
        assert(note@.take(end as int) =~= before(note@, marker@)) by {
            if at > note@.len() {
                assert(note@.take(note@.len() as int) =~= note@);
            }
        }
    }
    let kept = trimmed_len(&cs, end);
    let mut out = prefix_string(&cs, kept);
    out.append("\n\nLast listening to: ");
    out.append(notice);
    out
}

} // verus!
