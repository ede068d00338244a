//! Verified text utilities: equality and lexicographic order on strings,
//! sorting of name lists, joining, padding, trimming, and decimal rendering
//! of counters. These are the string-level building blocks of the engine's
//! diagnostics and help output.

use vstd::prelude::*;
use vstd::seq_lib::lemma_multiset_commutative;
use vstd::string::StrSliceExecFns;
use vstd::string::StringExecFns;

verus! {

broadcast use vstd::seq_lib::group_seq_properties;

// ---------------------------------------------------------------------------
// Character classes
// ---------------------------------------------------------------------------

/// The whitespace characters the engine recognises when it trims input and
/// decides that a line is blank: the six ASCII whitespace characters.
/// Unicode-only whitespace (a no-break space, say) is treated as ordinary
/// text.
pub open spec fn is_space_char(c: char) -> bool {
    c == ' ' || c == '\t' || c == '\n' || c == '\r' || c == '\u{b}' || c == '\u{c}'
}

/// Decide `is_space_char`.
pub fn is_space(c: char) -> (r: bool)
    ensures
        r == is_space_char(c),
{
    c == ' ' || c == '\t' || c == '\n' || c == '\r' || c == '\u{b}' || c == '\u{c}'
}

// ---------------------------------------------------------------------------
// Equality and lexicographic order
// ---------------------------------------------------------------------------

/// Decide whether two strings hold the same characters.
pub fn str_eq(a: &str, b: &str) -> (r: bool)
    ensures
        r == (a@ == b@),
{
    let n = a.unicode_len();
    if n != b.unicode_len() {
        return false;
    }
    let mut i: usize = 0;
    while i < n
        invariant
            0 <= i <= n,
            forall|k: int| 0 <= k < i ==> a@[k] == b@[k],
        decreases n - i,
    {
        if a.get_char(i) != b.get_char(i) {
            return false;
        }
        i += 1;
    }
    proof {
        assert(a@ =~= b@);
    }
    true
}

/// `a` precedes `b` (or equals it) in lexicographic order by unicode
/// scalar value.
pub open spec fn lex_le(a: Seq<char>, b: Seq<char>) -> bool
    decreases a.len(),
{
    if a.len() == 0 {
        true
    } else if b.len() == 0 {
        false
    } else if (a[0] as u32) < (b[0] as u32) {
        true
    } else if (a[0] as u32) > (b[0] as u32) {
        false
    } else {
        lex_le(a.drop_first(), b.drop_first())
    }
}

/// Lexicographic order is total.
pub proof fn lemma_lex_le_total(a: Seq<char>, b: Seq<char>)
    ensures
        lex_le(a, b) || lex_le(b, a),
    decreases a.len(),
{
    if a.len() > 0 && b.len() > 0 && a[0] as u32 == b[0] as u32 {
        lemma_lex_le_total(a.drop_first(), b.drop_first());
    }
}

/// Lexicographic order is transitive.
pub proof fn lemma_lex_le_trans(a: Seq<char>, b: Seq<char>, c: Seq<char>)
    requires
        lex_le(a, b),
        lex_le(b, c),
    ensures
        lex_le(a, c),
    decreases a.len(),
{
    if a.len() > 0 && b.len() > 0 && c.len() > 0 && a[0] as u32 == b[0] as u32 && b[0] as u32
        == c[0] as u32 {
        lemma_lex_le_trans(a.drop_first(), b.drop_first(), c.drop_first());
    }
}

/// Lexicographic order is reflexive.
pub proof fn lemma_lex_le_refl(a: Seq<char>)
    ensures
        lex_le(a, a),
    decreases a.len(),
{
    if a.len() > 0 {
        lemma_lex_le_refl(a.drop_first());
    }
}

/// Lexicographic order is antisymmetric.
pub proof fn lemma_lex_le_antisymm(a: Seq<char>, b: Seq<char>)
    requires
        lex_le(a, b),
        lex_le(b, a),
    ensures
        a == b,
    decreases a.len(),
{
    if a.len() == 0 {
        assert(a =~= b);
    } else {
        lemma_char_cast_inj(a[0], b[0]);
        lemma_lex_le_antisymm(a.drop_first(), b.drop_first());
        assert(a =~= b);
    }
}

/// Characters with the same scalar value are the same character.
proof fn lemma_char_cast_inj(c1: char, c2: char)
    requires
        c1 as u32 == c2 as u32,
    ensures
        c1 == c2,
{
}

/// Helper: skipping a shared head does not change the comparison.
proof fn lemma_lex_le_skip(a: Seq<char>, b: Seq<char>, i: int)
    requires
        0 <= i <= a.len(),
        i <= b.len(),
        forall|k: int| 0 <= k < i ==> a[k] == b[k],
    ensures
        lex_le(a, b) == lex_le(a.skip(i), b.skip(i)),
    decreases i,
{
    if i > 0 {
        lemma_lex_le_skip(a.drop_first(), b.drop_first(), i - 1);
        assert(a.drop_first().skip(i - 1) =~= a.skip(i));
        assert(b.drop_first().skip(i - 1) =~= b.skip(i));
    } else {
        assert(a.skip(0) =~= a);
        assert(b.skip(0) =~= b);
    }
}

/// Decide `lex_le` on two strings.
pub fn str_le(a: &str, b: &str) -> (r: bool)
    ensures
        r == lex_le(a@, b@),
{
    let an = a.unicode_len();
    let bn = b.unicode_len();
    let mut i: usize = 0;
    while i < an && i < bn
        invariant
            0 <= i <= an,
            0 <= i <= bn,
            forall|k: int| 0 <= k < i ==> a@[k] == b@[k],
        decreases an - i,
    {
        let c1 = a.get_char(i);
        let c2 = b.get_char(i);
        proof {
            lemma_lex_le_skip(a@, b@, i as int);
        }
        if (c1 as u32) < (c2 as u32) {
            return true;
        }
        if (c1 as u32) > (c2 as u32) {
            return false;
        }
        proof {
            assert(c1 == c2) by {
                assert(c1 as u32 == c2 as u32);
            }
        }
        i += 1;
    }
    proof {
        lemma_lex_le_skip(a@, b@, i as int);
    }
    an <= bn
}

// ---------------------------------------------------------------------------
// Sorting
// ---------------------------------------------------------------------------

/// The views of the elements of `s`, in order.
pub open spec fn views_of(s: Seq<String>) -> Seq<Seq<char>> {
    s.map_values(|x: String| x@)
}

/// The elements of `s` are sorted by `lex_le` on their views.
pub open spec fn sorted_strings(s: Seq<String>) -> bool {
    forall|i: int, j: int| 0 <= i < j < s.len() ==> lex_le(#[trigger] s[i]@, #[trigger] s[j]@)
}

/// Inserting in the middle inserts into the multiset.
proof fn lemma_to_multiset_insert<A>(s: Seq<A>, i: int, x: A)
    requires
        0 <= i <= s.len(),
    ensures
        s.insert(i, x).to_multiset() =~= s.to_multiset().insert(x),
{
    broadcast use vstd::seq_lib::group_to_multiset_ensures;

    let pre = s.subrange(0, i);
    let post = s.subrange(i, s.len() as int);
    lemma_multiset_commutative(pre.push(x), post);
    lemma_multiset_commutative(pre, post);
    assert(s =~= pre + post);
}

/// Sort a list of strings into lexicographic order. The result holds the
/// same strings (as a multiset), sorted.
#[verifier::rlimit(50)]
pub fn sort_strings(v: Vec<String>) -> (r: Vec<String>)
    ensures
        r@.to_multiset() == v@.to_multiset(),
        sorted_strings(r@),
        r@.len() == v@.len(),
{
    broadcast use vstd::seq_lib::group_to_multiset_ensures;

    let mut r: Vec<String> = Vec::new();
    let mut idx: usize = 0;
    while idx < v.len()
        invariant
            0 <= idx <= v@.len(),
            r@.to_multiset() == v@.subrange(0, idx as int).to_multiset(),
            sorted_strings(r@),
            r@.len() == idx,
        decreases v@.len() - idx,
    {
        let x = (&v[idx]).clone();
        assert(x == v@[idx as int]);
        let mut j: usize = 0;
        while j < r.len() && str_le(&r[j], &x)
            invariant
                0 <= j <= r@.len(),
                forall|k: int| 0 <= k < j ==> lex_le(#[trigger] r@[k]@, x@),
            decreases r@.len() - j,
        {
            j += 1;
        }
        proof {
            if j < r@.len() {
                lemma_lex_le_total(r@[j as int]@, x@);
            }
            lemma_to_multiset_insert(r@, j as int, x);
            assert(v@.subrange(0, idx as int + 1) =~= v@.subrange(0, idx as int).push(
                v@[idx as int],
            ));
            let rr = r@.insert(j as int, x);
            r@.insert_ensures(j as int, x);
            assert forall|p: int, q: int| 0 <= p < q < rr.len() implies lex_le(
                #[trigger] rr[p]@,
                #[trigger] rr[q]@,
            ) by {
                if p < j && q == j {
                    assert(rr[p] == r@[p]);
                } else if p == j && q > j {
                    assert(rr[q] == r@[q - 1]);
                    if q - 1 > j {
                        lemma_lex_le_trans(x@, r@[j as int]@, r@[q - 1]@);
                    }
                } else if p < j && q > j {
                    assert(rr[p] == r@[p]);
                    assert(rr[q] == r@[q - 1]);
                } else if p > j && q > j {
                    assert(rr[p] == r@[p - 1]);
                    assert(rr[q] == r@[q - 1]);
                }
            }
        }
        r.insert(j, x);
        idx += 1;
    }
    proof {
        assert(v@.subrange(0, idx as int) =~= v@);
    }
    r
}

/// Every part appears in the joined text: the join is at least as long
/// as any one part.
pub proof fn lemma_join_with_part_len(parts: Seq<Seq<char>>, sep: Seq<char>, i: int)
    requires
        0 <= i < parts.len(),
    ensures
        join_with(parts, sep).len() >= parts[i].len(),
    decreases parts.len(),
{
    if parts.len() > 1 && i > 0 {
        lemma_join_with_part_len(parts.drop_first(), sep, i - 1);
    }
}

/// Strings sorted strictly (sorted with pairwise distinct views) and holding
/// the same views are pointwise equal: the sorted, duplicate-free listing of
/// a set of names is unique.
pub proof fn lemma_sorted_unique(a: Seq<Seq<char>>, b: Seq<Seq<char>>)
    requires
        forall|i: int, j: int| 0 <= i < j < a.len() ==> lex_le(#[trigger] a[i], #[trigger] a[j]),
        forall|i: int, j: int| 0 <= i < j < b.len() ==> lex_le(#[trigger] b[i], #[trigger] b[j]),
        a.no_duplicates(),
        b.no_duplicates(),
        a.to_set() == b.to_set(),
    ensures
        a == b,
    decreases a.len(),
{
    if a.len() == 0 {
        if b.len() > 0 {
            assert(a.to_set().contains(b[0]));
        }
        assert(a =~= b);
    } else {
        assert(b.to_set().contains(a[0]));
        assert(a.to_set().contains(a[0]));
        let bi = choose|bi: int| 0 <= bi < b.len() && b[bi] == a[0];
        assert(b.len() > 0);
        assert(a.to_set().contains(b[0]));
        let ai = choose|ai: int| 0 <= ai < a.len() && a[ai] == b[0];
        // heads are mutually lex_le, hence equal
        assert(lex_le(a[0], b[0])) by {
            if ai == 0 {
                lemma_lex_le_refl(a[0]);
            } else {
                assert(lex_le(a[0], a[ai]));
            }
        }
        assert(lex_le(b[0], a[0])) by {
            if bi == 0 {
                lemma_lex_le_refl(b[0]);
            } else {
                assert(lex_le(b[0], b[bi]));
            }
        }
        lemma_lex_le_antisymm(a[0], b[0]);
        let at = a.drop_first();
        let bt = b.drop_first();
        assert(at.to_set() =~= bt.to_set()) by {
            assert forall|x: Seq<char>| at.contains(x) implies bt.contains(x) by {
                let k = choose|k: int| 0 <= k < at.len() && at[k] == x;
                assert(a[k + 1] == x);
                assert(x != a[0]);
                assert(b.to_set().contains(x));
                let m = choose|m: int| 0 <= m < b.len() && b[m] == x;
                assert(m != 0);
                assert(bt[m - 1] == x);
            }
            assert forall|x: Seq<char>| bt.contains(x) implies at.contains(x) by {
                let k = choose|k: int| 0 <= k < bt.len() && bt[k] == x;
                assert(b[k + 1] == x);
                assert(x != b[0]);
                assert(a.to_set().contains(x));
                let m = choose|m: int| 0 <= m < a.len() && a[m] == x;
                assert(m != 0);
                assert(at[m - 1] == x);
            }
        }
        lemma_sorted_unique(at, bt);
        assert(a =~= b);
    }
}


// ---------------------------------------------------------------------------
// Joining, padding, trimming
// ---------------------------------------------------------------------------

/// The parts of `parts` joined with the separator `sep` between
/// neighbouring parts.
pub open spec fn join_with(parts: Seq<Seq<char>>, sep: Seq<char>) -> Seq<char>
    decreases parts.len(),
{
    if parts.len() == 0 {
        Seq::empty()
    } else if parts.len() == 1 {
        parts[0]
    } else {
        parts[0] + sep + join_with(parts.drop_first(), sep)
    }
}

/// Joining after appending one more part appends a separator and the part.
pub proof fn lemma_join_push(parts: Seq<Seq<char>>, sep: Seq<char>, x: Seq<char>)
    ensures
        parts.len() == 0 ==> join_with(parts.push(x), sep) == x,
        parts.len() > 0 ==> join_with(parts.push(x), sep) == join_with(parts, sep) + sep + x,
    decreases parts.len(),
{
    let p = parts.push(x);
    if parts.len() == 0 {
        assert(p[0] == x);
    } else if parts.len() == 1 {
        assert(p.drop_first() =~= seq![x]);
        assert(join_with(seq![x], sep) == x);
        assert(join_with(p, sep) == p[0] + sep + join_with(p.drop_first(), sep));
    } else {
        lemma_join_push(parts.drop_first(), sep, x);
        assert(p.drop_first() =~= parts.drop_first().push(x));
        assert(join_with(p, sep) == p[0] + sep + join_with(parts.drop_first().push(x), sep));
        assert(parts[0] + sep + (join_with(parts.drop_first(), sep) + sep + x) =~= (parts[0] + sep
            + join_with(parts.drop_first(), sep)) + sep + x);
    }
}

/// Join a list of strings with a separator.
pub fn join_strs(v: &Vec<String>, sep: &str) -> (r: String)
    ensures
        r@ == join_with(views_of(v@), sep@),
{
    let mut r = String::new();
    let mut i: usize = 0;
    while i < v.len()
        invariant
            0 <= i <= v@.len(),
            r@ == join_with(views_of(v@.subrange(0, i as int)), sep@),
        decreases v@.len() - i,
    {
        proof {
            assert(views_of(v@.subrange(0, i as int + 1)) =~= views_of(
                v@.subrange(0, i as int),
            ).push(v@[i as int]@));
            lemma_join_push(views_of(v@.subrange(0, i as int)), sep@, v@[i as int]@);
        }
        if i > 0 {
            r.append(sep);
        }
        r.append((&v[i]).as_str());
        i += 1;
    }
    proof {
        assert(v@.subrange(0, v@.len() as int) =~= v@);
    }
    r
}

/// `n` space characters.
pub open spec fn spaces(n: int) -> Seq<char> {
    Seq::new(if n >= 0 {
        n as nat
    } else {
        0
    }, |i: int| ' ')
}

/// Build a string of `n` spaces.
pub fn spaces_str(n: usize) -> (r: String)
    ensures
        r@ == spaces(n as int),
{
    let mut r = String::new();
    let mut i: usize = 0;
    while i < n
        invariant
            0 <= i <= n,
            r@ == spaces(i as int),
        decreases n - i,
    {
        r.append(" ");
        proof {
            reveal_strlit(" ");
            assert(spaces(i as int) + " "@ =~= spaces(i as int + 1));
        }
        i += 1;
    }
    r
}

/// `s` padded on the right with spaces to `width` characters (unchanged if
/// already at least that wide).
pub open spec fn pad_right_spec(s: Seq<char>, width: int) -> Seq<char> {
    if s.len() >= width {
        s
    } else {
        s + spaces(width - s.len())
    }
}

/// Pad a string on the right with spaces to the given width.
pub fn pad_right(s: &str, width: usize) -> (r: String)
    ensures
        r@ == pad_right_spec(s@, width as int),
{
    let n = s.unicode_len();
    let mut r = s.to_owned();
    if n >= width {
        return r;
    }
    let pad = spaces_str(width - n);
    r.append(pad.as_str());
    r
}

/// Index of the first character of `s` at or after `i` that is not
/// whitespace (`s.len()` if there is none).
pub open spec fn skip_spaces(s: Seq<char>, i: int) -> int
    decreases s.len() - i when i <= s.len()
{
    if 0 <= i < s.len() && is_space_char(s[i]) {
        skip_spaces(s, i + 1)
    } else {
        i
    }
}

/// One past the last character of `s` before `j` that is not whitespace
/// (0 if there is none).
pub open spec fn rskip_spaces(s: Seq<char>, j: int) -> int
    decreases j when j >= 0
{
    if 0 < j <= s.len() && is_space_char(s[j - 1]) {
        rskip_spaces(s, j - 1)
    } else {
        j
    }
}

/// `s` with leading and trailing whitespace removed.
pub open spec fn trim_spec(s: Seq<char>) -> Seq<char> {
    let a = skip_spaces(s, 0);
    if a == s.len() {
        Seq::empty()
    } else {
        s.subrange(a, rskip_spaces(s, s.len() as int))
    }
}

/// Every character of `s` is whitespace.
pub open spec fn is_blank_text(s: Seq<char>) -> bool {
    forall|i: int| 0 <= i < s.len() ==> is_space_char(#[trigger] s[i])
}

proof fn lemma_skip_spaces_bounds(s: Seq<char>, i: int)
    requires
        0 <= i <= s.len(),
    ensures
        i <= skip_spaces(s, i) <= s.len(),
        forall|k: int| i <= k < skip_spaces(s, i) ==> is_space_char(#[trigger] s[k]),
        skip_spaces(s, i) < s.len() ==> !is_space_char(s[skip_spaces(s, i)]),
    decreases s.len() - i,
{
    if 0 <= i < s.len() && is_space_char(s[i]) {
        lemma_skip_spaces_bounds(s, i + 1);
    }
}

proof fn lemma_rskip_spaces_bounds(s: Seq<char>, j: int)
    requires
        0 <= j <= s.len(),
    ensures
        0 <= rskip_spaces(s, j) <= j,
        forall|k: int| rskip_spaces(s, j) <= k < j ==> is_space_char(#[trigger] s[k]),
        rskip_spaces(s, j) > 0 ==> !is_space_char(s[rskip_spaces(s, j) - 1]),
    decreases j,
{
    if 0 < j <= s.len() && is_space_char(s[j - 1]) {
        lemma_rskip_spaces_bounds(s, j - 1);
    }
}

/// Leading whitespace ends at or before the trailing whitespace begins,
/// as long as some character is not whitespace.
proof fn lemma_trim_bounds(s: Seq<char>)
    requires
        skip_spaces(s, 0) < s.len(),
    ensures
        skip_spaces(s, 0) < rskip_spaces(s, s.len() as int) <= s.len(),
{
    lemma_skip_spaces_bounds(s, 0);
    lemma_rskip_spaces_bounds(s, s.len() as int);
    let a = skip_spaces(s, 0);
    let b = rskip_spaces(s, s.len() as int);
    if b <= a {
        assert(is_space_char(s[a]));
    }
}

/// Decide whether `s` is blank: empty or all whitespace.
pub fn is_blank(s: &str) -> (r: bool)
    ensures
        r == is_blank_text(s@),
{
    let n = s.unicode_len();
    let mut i: usize = 0;
    while i < n
        invariant
            0 <= i <= n,
            forall|k: int| 0 <= k < i ==> is_space_char(#[trigger] s@[k]),
        decreases n - i,
    {
        if !is_space(s.get_char(i)) {
            return false;
        }
        i += 1;
    }
    true
}

/// Remove leading and trailing whitespace.
pub fn trim(s: &str) -> (r: String)
    ensures
        r@ == trim_spec(s@),
{
    let n = s.unicode_len();
    let mut a: usize = 0;
    while a < n && is_space(s.get_char(a))
        invariant
            0 <= a <= n,
            skip_spaces(s@, 0) == skip_spaces(s@, a as int),
        decreases n - a,
    {
        a += 1;
    }
    if a == n {
        return String::new();
    }
    let mut b: usize = n;
    while b > 0 && is_space(s.get_char(b - 1))
        invariant
            0 <= b <= n,
            rskip_spaces(s@, n as int) == rskip_spaces(s@, b as int),
        decreases b,
    {
        b -= 1;
    }
    proof {
        lemma_trim_bounds(s@);
    }
    s.substring_char(a, b).to_owned()
}

// ---------------------------------------------------------------------------
// Decimal rendering
// ---------------------------------------------------------------------------

/// The character for decimal digit `d`.
pub open spec fn digit_char_of(d: int) -> char {
    if d == 0 {
        '0'
    } else if d == 1 {
        '1'
    } else if d == 2 {
        '2'
    } else if d == 3 {
        '3'
    } else if d == 4 {
        '4'
    } else if d == 5 {
        '5'
    } else if d == 6 {
        '6'
    } else if d == 7 {
        '7'
    } else if d == 8 {
        '8'
    } else {
        '9'
    }
}

/// The decimal rendering of `n`, most significant digit first, without
/// leading zeros (a single `0` for zero).
pub open spec fn dec_digits(n: int) -> Seq<char>
    decreases n when n >= 0
{
    if n < 10 {
        seq![digit_char_of(n)]
    } else {
        dec_digits(n / 10).push(digit_char_of(n % 10))
    }
}

/// The single-character string for decimal digit `d`.
fn digit_str(d: u64) -> (r: &'static str)
    requires
        d < 10,
    ensures
        r@ == seq![digit_char_of(d as int)],
{
    proof {
        reveal_strlit("0");
        reveal_strlit("1");
        reveal_strlit("2");
        reveal_strlit("3");
        reveal_strlit("4");
        reveal_strlit("5");
        reveal_strlit("6");
        reveal_strlit("7");
        reveal_strlit("8");
        reveal_strlit("9");
    }
    if d == 0 {
        proof {
            assert("0"@ =~= seq![digit_char_of(0)]);
        }
        "0"
    } else if d == 1 {
        proof {
            assert("1"@ =~= seq![digit_char_of(1)]);
        }
        "1"
    } else if d == 2 {
        proof {
            assert("2"@ =~= seq![digit_char_of(2)]);
        }
        "2"
    } else if d == 3 {
        proof {
            assert("3"@ =~= seq![digit_char_of(3)]);
        }
        "3"
    } else if d == 4 {
        proof {
            assert("4"@ =~= seq![digit_char_of(4)]);
        }
        "4"
    } else if d == 5 {
        proof {
            assert("5"@ =~= seq![digit_char_of(5)]);
        }
        "5"
    } else if d == 6 {
        proof {
            assert("6"@ =~= seq![digit_char_of(6)]);
        }
        "6"
    } else if d == 7 {
        proof {
            assert("7"@ =~= seq![digit_char_of(7)]);
        }
        "7"
    } else if d == 8 {
        proof {
            assert("8"@ =~= seq![digit_char_of(8)]);
        }
        "8"
    } else {
        proof {
            assert("9"@ =~= seq![digit_char_of(9)]);
        }
        "9"
    }
}

/// Render `n` in decimal.
pub fn u64_to_dec(n: u64) -> (r: String)
    ensures
        r@ == dec_digits(n as int),
    decreases n,
{
    if n < 10 {
        digit_str(n).to_owned()
    } else {
        let mut s = u64_to_dec(n / 10);
        s.append(digit_str(n % 10));
        proof {
            assert(dec_digits((n / 10) as int) + seq![digit_char_of((n % 10) as int)] =~= dec_digits(
                (n / 10) as int,
            ).push(digit_char_of((n % 10) as int)));
            assert((n / 10) as int == n as int / 10);
            assert((n % 10) as int == n as int % 10);
        }
        s
    }
}


/// Two string sequences with the same multiset hold the same set of
/// values, hence the same set of views; and duplicate-freedom of the views
/// carries over.
pub proof fn lemma_same_multiset_same_views(a: Seq<String>, b: Seq<String>)
    requires
        a.to_multiset() == b.to_multiset(),
        views_of(a).no_duplicates(),
    ensures
        views_of(b).no_duplicates(),
        views_of(a).to_set() == views_of(b).to_set(),
{
    broadcast use vstd::seq_lib::group_to_multiset_ensures;

    assert(a.no_duplicates()) by {
        if !a.no_duplicates() {
            let (i, j) = choose|i: int, j: int|
                0 <= i < j < a.len() && a[i] == a[j];
            assert(views_of(a)[i] == views_of(a)[j]);
        }
    }
    assert forall|x: String| a.contains(x) <==> b.contains(x) by {
        assert(a.contains(x) <==> a.to_multiset().count(x) > 0);
        assert(b.contains(x) <==> b.to_multiset().count(x) > 0);
    }
    assert(views_of(b).no_duplicates()) by {
        if !views_of(b).no_duplicates() {
            let (i, j) = choose|i: int, j: int|
                0 <= i < j < b.len() && views_of(b)[i] == views_of(b)[j];
            assert(b[i]@ == b[j]@);
            if b[i] == b[j] {
                a.lemma_multiset_has_no_duplicates();
                assert(b.to_multiset().count(b[i]) >= 2) by {
                    assert(b.remove(i).to_multiset() =~= b.to_multiset().remove(b[i]));
                    assert(b.remove(i)[j - 1] == b[j]);
                    assert(b.remove(i).contains(b[j]));
                    assert(b.remove(i).to_multiset().count(b[j]) > 0);
                }
                assert(a.to_multiset().count(b[i]) >= 2);
                assert(a.contains(b[i]));
                let k = choose|k: int| 0 <= k < a.len() && a[k] == b[i];
                assert(a.remove(k).to_multiset() =~= a.to_multiset().remove(a[k]));
                assert(a.remove(k).to_multiset().count(b[i]) >= 1);
                assert(a.remove(k).contains(b[i]));
                let k2 = choose|k2: int| 0 <= k2 < a.remove(k).len() && a.remove(k)[k2] == b[i];
                if k2 < k {
                    assert(a[k2] == b[i]);
                    assert(views_of(a)[k2] == views_of(a)[k]);
                } else {
                    assert(a[k2 + 1] == b[i]);
                    assert(views_of(a)[k2 + 1] == views_of(a)[k]);
                }
            } else {
                // two distinct strings of b with equal views must both
                // occur in a, whose views are duplicate-free
                assert(b.contains(b[i]));
                assert(b.contains(b[j]));
                assert(a.contains(b[i]));
                assert(a.contains(b[j]));
                let p = choose|p: int| 0 <= p < a.len() && a[p] == b[i];
                let q = choose|q: int| 0 <= q < a.len() && a[q] == b[j];
                assert(p != q);
                assert(views_of(a)[p] == views_of(a)[q]);
            }
        }
    }
    assert forall|z: Seq<char>|
        views_of(a).to_set().contains(z) <==> views_of(b).to_set().contains(z) by {
        if views_of(a).to_set().contains(z) {
            let i = choose|i: int| 0 <= i < a.len() && views_of(a)[i] == z;
            assert(b.contains(a[i]));
            let j = choose|j: int| 0 <= j < b.len() && b[j] == a[i];
            assert(views_of(b)[j] == z);
        }
        if views_of(b).to_set().contains(z) {
            let i = choose|i: int| 0 <= i < b.len() && views_of(b)[i] == z;
            assert(a.contains(b[i]));
            let j = choose|j: int| 0 <= j < a.len() && a[j] == b[i];
            assert(views_of(a)[j] == z);
        }
    }
    assert(views_of(a).to_set() =~= views_of(b).to_set());
}

} // verus!
