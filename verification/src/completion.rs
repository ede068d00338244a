//! Interactive hint and completion queries over the prefix index.
//!
//! The line-editing surface asks two questions while the user types: "what
//! would complete the word under the cursor" and "which names start with
//! the typed prefix". The decisions are made here, on plain values; the
//! editor integration itself lives with the embedding application.

use vstd::prelude::*;
use vstd::string::StrSliceExecFns;

use crate::index::{prefix_matches, PrefixIndex};
use crate::text::{is_space, is_space_char, skip_spaces, trim, trim_spec, views_of};

verus! {

// ---------------------------------------------------------------------------
// Whitespace scanning and splitting
// ---------------------------------------------------------------------------

/// Number of whitespace characters at the start of `line`.
pub fn whitespace_before(line: &str) -> (r: usize)
    ensures
        r == skip_spaces(line@, 0),
        r <= line@.len(),
{
    let n = line.unicode_len();
    let mut i: usize = 0;
    while i < n && is_space(line.get_char(i))
        invariant
            0 <= i <= n,
            skip_spaces(line@, 0) == skip_spaces(line@, i as int),
        decreases n - i,
    {
        i += 1;
    }
    i
}

/// Index of the first whitespace character of `s` at or after `i`
/// (`s.len()` if there is none).
pub open spec fn next_space(s: Seq<char>, i: int) -> int
    decreases s.len() - i when i <= s.len()
{
    if 0 <= i < s.len() && !is_space_char(s[i]) {
        next_space(s, i + 1)
    } else {
        i
    }
}

/// `s` split at every whitespace character: the pieces between whitespace
/// positions, in order, empty pieces included. An empty sequence yields
/// one empty piece.
pub open spec fn split_ws(s: Seq<char>) -> Seq<Seq<char>>
    decreases s.len(),
{
    let k = next_space(s, 0);
    if k < 0 || k >= s.len() {
        seq![s]
    } else {
        seq![s.subrange(0, k)] + split_ws(s.subrange(k + 1, s.len() as int))
    }
}

/// A split has at least one piece.
pub proof fn lemma_split_ws_nonempty(s: Seq<char>)
    ensures
        split_ws(s).len() >= 1,
    decreases s.len(),
{
    let k = next_space(s, 0);
    if 0 <= k < s.len() {
        lemma_split_ws_nonempty(s.subrange(k + 1, s.len() as int));
    }
}

proof fn lemma_next_space_shift(s: Seq<char>, start: int, i: int)
    requires
        0 <= start <= i <= s.len(),
    ensures
        next_space(s.subrange(start, s.len() as int), i - start) == next_space(s, i) - start,
    decreases s.len() - i,
{
    let body = s.subrange(start, s.len() as int);
    if i < s.len() {
        assert(body[i - start] == s[i]);
    }
    if i < s.len() && !is_space_char(s[i]) {
        lemma_next_space_shift(s, start, i + 1);
    }
}

/// Split `line` into its whitespace-separated pieces after trimming, the
/// way the completer counts words: exactly `split_ws(trim_spec(line@))`.
pub fn split_args(line: &str) -> (r: Vec<String>)
    ensures
        views_of(r@) == split_ws(trim_spec(line@)),
{
    let t = trim(line);
    let n = t.as_str().unicode_len();
    let mut r: Vec<String> = Vec::new();
    let mut start: usize = 0;
    let mut i: usize = 0;
    proof {
        assert(t@.subrange(0, n as int) =~= t@);
        assert(views_of(r@) + split_ws(t@) =~= split_ws(t@));
    }
    while i < n
        invariant
            0 <= start <= i <= n,
            n == t@.len(),
            split_ws(t@) =~= views_of(r@) + split_ws(t@.subrange(start as int, n as int)),
            next_space(t@, start as int) == next_space(t@, i as int),
        decreases n - i,
    {
        if is_space(t.as_str().get_char(i)) {
            let word = t.as_str().substring_char(start, i).to_owned();
            proof {
                let suffix = t@.subrange(start as int, n as int);
                lemma_next_space_shift(t@, start as int, start as int);
                assert(next_space(suffix, 0) == i - start);
                assert(suffix.subrange(0, i - start) =~= t@.subrange(start as int, i as int));
                assert(suffix.subrange(i - start + 1, suffix.len() as int) =~= t@.subrange(
                    i as int + 1,
                    n as int,
                ));
                assert(views_of(r@.push(word)) =~= views_of(r@).push(word@));
                assert(views_of(r@) + (seq![word@] + split_ws(t@.subrange(i as int + 1, n as int)))
                    =~= views_of(r@.push(word)) + split_ws(t@.subrange(i as int + 1, n as int)));
            }
            r.push(word);
            start = i + 1;
        }
        i += 1;
    }
    let word = t.as_str().substring_char(start, n).to_owned();
    proof {
        let suffix = t@.subrange(start as int, n as int);
        lemma_next_space_shift(t@, start as int, start as int);
        assert(next_space(t@, n as int) == n);
        assert(next_space(suffix, 0) == suffix.len());
        assert(split_ws(suffix) =~= seq![word@]);
        assert(views_of(r@.push(word)) =~= views_of(r@).push(word@));
        assert(views_of(r@) + seq![word@] =~= views_of(r@.push(word)));
    }
    r.push(word);
    r
}

// ---------------------------------------------------------------------------
// Hint and completion decisions
// ---------------------------------------------------------------------------

/// The inline hint for `line` with the cursor at character position `pos`:
/// when the cursor sits at the end of the line after a non-empty first
/// token that exactly one name starts with, the rest of that name;
/// otherwise nothing.
pub open spec fn hint_of(entries: Set<Seq<char>>, line: Seq<char>, pos: int) -> Option<Seq<char>> {
    let start = skip_spaces(line, 0);
    if pos != line.len() || start == line.len() {
        None
    } else {
        let p = line.subrange(start, line.len() as int);
        let m = prefix_matches(entries, p);
        if exists|e: Seq<char>| m.contains(e) && (forall|z: Seq<char>| m.contains(z) ==> z == e) {
            let e = choose|e: Seq<char>|
                m.contains(e) && (forall|z: Seq<char>| m.contains(z) ==> z == e);
            Some(e.skip(p.len() as int))
        } else {
            None
        }
    }
}

/// Compute the inline hint: the unmatched tail of the unique name starting
/// with the text before the cursor, when there is exactly one.
pub fn completion_hint(index: &PrefixIndex, line: &str, pos: usize) -> (r: Option<String>)
    ensures
        ({
            let h = hint_of(index.entries(), line@, pos as int);
            &&& r is Some <==> h is Some
            &&& r matches Some(s) ==> h == Some(s@)
        }),
{
    let n = line.unicode_len();
    let start = whitespace_before(line);
    if pos != n || start == n {
        return None;
    }
    let prefix = line.substring_char(start, n);
    let candidates = index.predict(prefix);
    let ghost m = prefix_matches(index.entries(), prefix@);
    if candidates.len() == 1 {
        proof {
            assert forall|z: Seq<char>| m.contains(z) implies z == candidates@[0]@ by {
                let i = choose|i: int| 0 <= i < candidates@.len() && candidates@[i]@ == z;
            }
            let e = choose|e: Seq<char>|
                m.contains(e) && (forall|z: Seq<char>| m.contains(z) ==> z == e);
            assert(e == candidates@[0]@);
        }
        let c = &candidates[0];
        let clen = c.as_str().unicode_len();
        let tail = c.as_str().substring_char(n - start, clen);
        proof {
            assert(candidates@[0]@.skip(prefix@.len() as int) =~= candidates@[0]@.subrange(
                (n - start) as int,
                candidates@[0]@.len() as int,
            ));
        }
        Some(tail.to_owned())
    } else {
        proof {
            if candidates@.len() == 0 {
                assert forall|e: Seq<char>|
                    !(m.contains(e) && (forall|z: Seq<char>| m.contains(z) ==> z == e)) by {
                    if m.contains(e) {
                        let i = choose|i: int|
                            0 <= i < candidates@.len() && candidates@[i]@ == e;
                    }
                }
            } else {
                assert(candidates@.len() >= 2);
                assert forall|e: Seq<char>|
                    !(m.contains(e) && (forall|z: Seq<char>| m.contains(z) ==> z == e)) by {
                    assert(m.contains(candidates@[0]@));
                    assert(m.contains(candidates@[1]@));
                    assert(candidates@[0]@ != candidates@[1]@);
                }
            }
        }
        None
    }
}

/// The completion offered for the first word of `line`: when the line
/// holds at most one word, every name starting with it, to be inserted
/// after the leading whitespace; when the cursor is past the first word,
/// nothing (the engine completes command names only).
pub fn complete_first_word(index: &PrefixIndex, line: &str) -> (r: Option<(usize, Vec<String>)>)
    ensures
        split_ws(trim_spec(line@)).len() >= 2 ==> r is None,
        split_ws(trim_spec(line@)).len() < 2 ==> ({
            let w = split_ws(trim_spec(line@))[0];
            let m = prefix_matches(index.entries(), w);
            &&& r matches Some(p)
            &&& p.0 == skip_spaces(line@, 0)
            &&& forall|i: int| 0 <= i < p.1@.len() ==> m.contains(#[trigger] p.1@[i]@)
            &&& forall|e: Seq<char>|
                #[trigger] m.contains(e) ==> exists|i: int| 0 <= i < p.1@.len() && p.1@[i]@ == e
            &&& forall|i: int, j: int| 0 <= i < j < p.1@.len() ==> p.1@[i]@ != p.1@[j]@
        }),
{
    let args = split_args(line);
    if args.len() >= 2 {
        return None;
    }
    proof {
        lemma_split_ws_nonempty(trim_spec(line@));
        assert(args@[0]@ == views_of(args@)[0]);
    }
    let start = whitespace_before(line);
    let candidates = index.predict((&args[0]).as_str());
    let p = (start, candidates);
    proof {
        let w = split_ws(trim_spec(line@))[0];
        assert forall|e: Seq<char>| prefix_matches(index.entries(), w).contains(e) implies exists|
            i: int,
        | 0 <= i < p.1@.len() && p.1@[i]@ == e by {
            assert(prefix_matches(index.entries(), args@[0]@).contains(e));
            let i0 = choose|i0: int| 0 <= i0 < p.1@.len() && p.1@[i0]@ == e;
            assert(0 <= i0 < p.1@.len() && p.1@[i0]@ == e);
        }
    }
    Some(p)
}

} // verus!
