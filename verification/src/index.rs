//! The prefix index: the set of all command names (registered and
//! reserved), organised for "every name starting with this prefix" queries.
//!
//! The index is built once from the final name set and read-only
//! thereafter. It is backed by a byte trie from the `trie_rs` crate; the
//! trie is reached only through the trusted wrappers below, whose contracts
//! speak of the abstract set of entries. Entries are pushed from UTF-8
//! strings, so a byte-level prefix in the trie coincides with a
//! character-level prefix of the entry.

use vstd::prelude::*;

use crate::text::{lemma_same_multiset_same_views, lex_le, sort_strings, str_eq, views_of};

verus! {

// ---------------------------------------------------------------------------
// Trusted view of the trie_rs collection
// ---------------------------------------------------------------------------

#[verifier::external_type_specification]
#[verifier::external_body]
#[verifier::reject_recursive_types(Label)]
pub struct ExTrie<Label>(trie_rs::Trie<Label>);

#[verifier::external_type_specification]
#[verifier::external_body]
#[verifier::reject_recursive_types(Label)]
pub struct ExTrieBuilder<Label>(trie_rs::TrieBuilder<Label>);

/// The set of entries a finished trie holds, as character sequences.
pub uninterp spec fn trie_entries(t: trie_rs::Trie<u8>) -> Set<Seq<char>>;

/// The set of entries pushed into a trie builder so far, as character
/// sequences.
pub uninterp spec fn builder_entries(b: trie_rs::TrieBuilder<u8>) -> Set<Seq<char>>;

/// Relies on trie_rs::TrieBuilder::new: a fresh builder holds no entries.
#[verifier::external_body]
fn trie_builder_new() -> (b: trie_rs::TrieBuilder<u8>)
    ensures
        builder_entries(b) == Set::<Seq<char>>::empty(),
{
    trie_rs::TrieBuilder::new()
}

/// Relies on trie_rs::TrieBuilder::push: adds the bytes of `name` as one
/// entry; a trie stores each entry once, so pushing is inserting into the
/// entry set. Pushing an empty entry panics inside the trie, so the
/// contract excludes it.
#[verifier::external_body]
fn trie_builder_push(b: &mut trie_rs::TrieBuilder<u8>, name: &str)
    requires
        name@.len() > 0,
    ensures
        builder_entries(*final(b)) == builder_entries(*old(b)).insert(name@),
{
    b.push(name);
}

/// Relies on trie_rs::TrieBuilder::build: the finished trie holds exactly
/// the pushed entries.
#[verifier::external_body]
fn trie_build(b: trie_rs::TrieBuilder<u8>) -> (t: trie_rs::Trie<u8>)
    ensures
        trie_entries(t) == builder_entries(b),
{
    b.build()
}

/// Relies on trie_rs::Trie::predictive_search: yields every stored entry
/// that starts with `prefix`, each exactly once (entries here are valid
/// UTF-8, pushed from strings, so byte prefixes and character prefixes
/// coincide).
#[verifier::external_body]
fn trie_predict(t: &trie_rs::Trie<u8>, prefix: &str) -> (r: Vec<String>)
    ensures
        forall|i: int|
            0 <= i < r@.len() ==> trie_entries(*t).contains(#[trigger] r@[i]@)
                && prefix@.is_prefix_of(r@[i]@),
        forall|e: Seq<char>|
            #[trigger] trie_entries(*t).contains(e) && prefix@.is_prefix_of(e) ==> exists|i: int|
                0 <= i < r@.len() && r@[i]@ == e,
        forall|i: int, j: int| 0 <= i < j < r@.len() ==> r@[i]@ != r@[j]@,
{
    t.predictive_search(prefix).collect()
}

// ---------------------------------------------------------------------------
// The index
// ---------------------------------------------------------------------------

/// The registered-or-reserved names that start with prefix `p`; an empty
/// prefix matches nothing, so that blank input never dumps the whole
/// registry.
pub open spec fn prefix_matches(entries: Set<Seq<char>>, p: Seq<char>) -> Set<Seq<char>> {
    if p.len() == 0 {
        Set::empty()
    } else {
        entries.filter(|e: Seq<char>| p.is_prefix_of(e))
    }
}

/// `m` holds exactly one element, `e`.
pub open spec fn is_singleton(m: Set<Seq<char>>, e: Seq<char>) -> bool {
    m.contains(e) && forall|z: Seq<char>| m.contains(z) ==> z == e
}

/// `m` holds at least two distinct elements.
pub open spec fn has_two(m: Set<Seq<char>>) -> bool {
    exists|x: Seq<char>, y: Seq<char>| x != y && m.contains(x) && m.contains(y)
}

/// A read-only prefix-lookup structure over a fixed set of names.
pub struct PrefixIndex {
    trie: trie_rs::Trie<u8>,
}

impl PrefixIndex {
    /// The names the index holds.
    pub closed spec fn entries(&self) -> Set<Seq<char>> {
        trie_entries(self.trie)
    }

    /// Build an index holding exactly the given (non-empty) names.
    pub fn from_names(names: &Vec<String>) -> (idx: PrefixIndex)
        requires
            forall|i: int| 0 <= i < names@.len() ==> (#[trigger] names@[i])@.len() > 0,
        ensures
            idx.entries() == views_of(names@).to_set(),
    {
        broadcast use vstd::prelude::Seq::lemma_push_to_set_commute;

        let mut b = trie_builder_new();
        let mut i: usize = 0;
        while i < names.len()
            invariant
                0 <= i <= names@.len(),
                builder_entries(b) == views_of(names@.subrange(0, i as int)).to_set(),
            decreases names@.len() - i,
        {
            proof {
                assert(views_of(names@.subrange(0, i as int + 1)) =~= views_of(
                    names@.subrange(0, i as int),
                ).push(names@[i as int]@));
            }
            trie_builder_push(&mut b, (&names[i]).as_str());
            i += 1;
        }
        proof {
            assert(names@.subrange(0, names@.len() as int) =~= names@);
        }
        PrefixIndex { trie: trie_build(b) }
    }

    /// All held names that start with `prefix`: exactly the set
    /// `prefix_matches(self.entries(), prefix@)`, each name once, in no
    /// guaranteed order. An empty prefix yields an empty result.
    pub fn predict(&self, prefix: &str) -> (r: Vec<String>)
        ensures
            forall|i: int|
                0 <= i < r@.len() ==> prefix_matches(self.entries(), prefix@).contains(
                    #[trigger] r@[i]@,
                ),
            forall|e: Seq<char>|
                #[trigger] prefix_matches(self.entries(), prefix@).contains(e) ==> exists|i: int|
                    0 <= i < r@.len() && r@[i]@ == e,
            forall|i: int, j: int| 0 <= i < j < r@.len() ==> r@[i]@ != r@[j]@,
    {
        if prefix.is_empty() {
            Vec::new()
        } else {
            trie_predict(&self.trie, prefix)
        }
    }
}

// ---------------------------------------------------------------------------
// Resolution
// ---------------------------------------------------------------------------

/// The outcome of resolving a typed token against the index.
#[derive(Debug)]
pub enum Resolution {
    /// Exactly one name matches (or the token is that name itself) and the
    /// command may be executed.
    Resolved(String),
    /// No name can be executed; the listed candidates (possibly none) are
    /// shown to the user, sorted.
    NotFound(Vec<String>),
    /// Two or more names match; all of them are listed, sorted.
    Ambiguous(Vec<String>),
}

/// The views of `c` listed in strictly increasing lexicographic order.
pub open spec fn strictly_sorted_views(c: Seq<String>) -> bool {
    &&& forall|i: int, j: int| 0 <= i < j < c.len() ==> lex_le(#[trigger] c[i]@, #[trigger] c[j]@)
    &&& views_of(c).no_duplicates()
}

/// What resolving prefix `p` against match set `m` must produce, with
/// prefix execution enabled or not (`pe`):
/// - two or more matches: ambiguous, all matches listed sorted;
/// - exactly one match: resolved to it, unless it is a strict (non-exact)
///   prefix while prefix execution is disabled, in which case it is not
///   found and the one candidate is listed;
/// - no match: not found, no candidates.
pub open spec fn resolution_matches(
    m: Set<Seq<char>>,
    p: Seq<char>,
    pe: bool,
    r: Resolution,
) -> bool {
    if has_two(m) {
        r matches Resolution::Ambiguous(c) && strictly_sorted_views(c@) && views_of(c@).to_set()
            == m
    } else if exists|e: Seq<char>| is_singleton(m, e) {
        let e = choose|e: Seq<char>| is_singleton(m, e);
        if pe || e == p {
            r matches Resolution::Resolved(n) && n@ == e
        } else {
            r matches Resolution::NotFound(c) && c@.len() == 1 && c@[0]@ == e
        }
    } else {
        r matches Resolution::NotFound(c) && c@.len() == 0
    }
}

impl PrefixIndex {
    /// Resolve the typed token `prefix`: find every name starting with it
    /// and classify, per `resolution_matches`. With `prefix_exec` disabled
    /// a single strict-prefix match is rejected instead of executed.
    pub fn resolve(&self, prefix: &str, prefix_exec: bool) -> (r: Resolution)
        ensures
            resolution_matches(prefix_matches(self.entries(), prefix@), prefix@, prefix_exec, r),
    {
        let ghost m = prefix_matches(self.entries(), prefix@);
        let mut candidates = self.predict(prefix);
        if candidates.len() == 1 {
            proof {
                assert(is_singleton(m, candidates@[0]@)) by {
                    assert forall|z: Seq<char>| m.contains(z) implies z == candidates@[0]@ by {
                        let i = choose|i: int|
                            0 <= i < candidates@.len() && candidates@[i]@ == z;
                    }
                }
                assert(!has_two(m));
                let e = choose|e: Seq<char>| is_singleton(m, e);
                assert(e == candidates@[0]@);
            }
            let name = candidates.pop().unwrap();
            if prefix_exec || str_eq(name.as_str(), prefix) {
                Resolution::Resolved(name)
            } else {
                let mut one: Vec<String> = Vec::new();
                one.push(name);
                Resolution::NotFound(one)
            }
        } else if candidates.len() == 0 {
            proof {
                assert(m =~= Set::<Seq<char>>::empty()) by {
                    assert forall|z: Seq<char>| !m.contains(z) by {
                        if m.contains(z) {
                            let i = choose|i: int|
                                0 <= i < candidates@.len() && candidates@[i]@ == z;
                        }
                    }
                }
                assert(!has_two(m));
                assert(forall|e: Seq<char>| !is_singleton(m, e));
            }
            Resolution::NotFound(candidates)
        } else {
            proof {
                assert(has_two(m)) by {
                    assert(m.contains(candidates@[0]@));
                    assert(m.contains(candidates@[1]@));
                    assert(candidates@[0]@ != candidates@[1]@);
                }
            }
            let sorted = sort_strings(candidates);
            proof {
                lemma_same_multiset_same_views(candidates@, sorted@);
                assert(views_of(sorted@).to_set() =~= m) by {
                    assert forall|z: Seq<char>| m.contains(z) implies views_of(
                        sorted@,
                    ).to_set().contains(z) by {
                        let i = choose|i: int|
                            0 <= i < candidates@.len() && candidates@[i]@ == z;
                        assert(views_of(candidates@)[i] == z);
                        assert(views_of(candidates@).to_set().contains(z));
                    }
                    assert forall|z: Seq<char>| views_of(sorted@).to_set().contains(z) implies m
                        .contains(z) by {
                        let i = choose|i: int|
                            0 <= i < sorted@.len() && views_of(sorted@)[i] == z;
                        assert(sorted@[i]@ == z);
                        assert(views_of(candidates@).to_set().contains(z));
                        let k = choose|k: int|
                            0 <= k < candidates@.len() && views_of(candidates@)[k] == z;
                        assert(candidates@[k]@ == z);
                    }
                }
            }
            Resolution::Ambiguous(sorted)
        }
    }
}


// ---------------------------------------------------------------------------
// Laws of resolution
// ---------------------------------------------------------------------------

/// When exactly one name matches the typed token, resolution succeeds
/// with that name — also when the token is a strict, non-exact prefix of
/// it, as long as prefix execution is enabled.
pub proof fn law_unique_match_resolves(
    m: Set<Seq<char>>,
    p: Seq<char>,
    pe: bool,
    r: Resolution,
    e: Seq<char>,
)
    requires
        is_singleton(m, e),
        pe || e == p,
        resolution_matches(m, p, pe, r),
    ensures
        r matches Resolution::Resolved(n) && n@ == e,
{
    assert(!has_two(m)) by {
        if has_two(m) {
            let (x, y) = choose|x: Seq<char>, y: Seq<char>|
                x != y && m.contains(x) && m.contains(y);
            assert(x == e && y == e);
        }
    }
    let ec = choose|e2: Seq<char>| is_singleton(m, e2);
    assert(is_singleton(m, ec));
    assert(ec == e);
}

/// When two or more names match the typed token, resolution fails as
/// ambiguous and lists every match, sorted and without duplicates.
pub proof fn law_ambiguous_match_fails(m: Set<Seq<char>>, p: Seq<char>, pe: bool, r: Resolution)
    requires
        has_two(m),
        resolution_matches(m, p, pe, r),
    ensures
        r matches Resolution::Ambiguous(c) && strictly_sorted_views(c@) && views_of(c@).to_set()
            == m,
{
}

} // verus!
