//! Literal forms of the argument types an engine command can declare.
//!
//! The functions here decide, for a raw argument string, whether it is a
//! well-formed literal of a given type, exactly as the argument validator
//! needs: a signed 32-bit integer (with its value), a floating-point literal
//! (syntax only; the engine never holds the numeric value), and decimal
//! rendering of counters for diagnostics.

use vstd::prelude::*;
use vstd::string::StrSliceExecFns;

verus! {

// ---------------------------------------------------------------------------
// Decimal digits
// ---------------------------------------------------------------------------

/// `c` is one of the ten ASCII decimal digits.
pub open spec fn is_digit_char(c: char) -> bool {
    48 <= c as u32 <= 57
}

/// Numeric value of a digit character.
pub open spec fn digit_val(c: char) -> int {
    c as u32 - 48
}

/// Every character of `s` is a decimal digit.
pub open spec fn all_digits(s: Seq<char>) -> bool {
    forall|i: int| 0 <= i < s.len() ==> is_digit_char(#[trigger] s[i])
}

/// Value of a digit string read in base ten, most significant digit first.
pub open spec fn digits_val(s: Seq<char>) -> int
    decreases s.len(),
{
    if s.len() == 0 {
        0
    } else {
        digits_val(s.drop_last()) * 10 + digit_val(s.last())
    }
}

// ---------------------------------------------------------------------------
// i32 literals
// ---------------------------------------------------------------------------

/// The value denoted by `s` as a signed 32-bit decimal integer literal:
/// an optional sign followed by one or more digits, denoting a value within
/// the `i32` range. `None` if the syntax is wrong or the value is out of
/// range.
pub open spec fn i32_literal_value(s: Seq<char>) -> Option<int> {
    let signed = s.len() > 0 && (s[0] == '+' || s[0] == '-');
    let mag = if signed {
        s.subrange(1, s.len() as int)
    } else {
        s
    };
    if mag.len() > 0 && all_digits(mag) {
        let v = if s.len() > 0 && s[0] == '-' {
            -digits_val(mag)
        } else {
            digits_val(mag)
        };
        if i32::MIN <= v <= i32::MAX {
            Some(v)
        } else {
            None
        }
    } else {
        None
    }
}

/// Parse `s` as an `i32`, accepting exactly the strings accepted by
/// `i32_literal_value` and returning the denoted value.
pub fn parse_i32(s: &str) -> (r: Option<i32>)
    ensures
        i32_literal_value(s@) matches Some(v) ==> r == Some(v as i32),
        i32_literal_value(s@) is None ==> r is None,
{
    let n = s.unicode_len();
    if n == 0 {
        return None;
    }
    let first = s.get_char(0);
    let neg = first == '-';
    let start: usize = if first == '-' || first == '+' {
        1
    } else {
        0
    };
    if start == n {
        return None;
    }
    let ghost mag = s@.subrange(start as int, n as int);
    proof {
        if start == 0 {
            assert(mag =~= s@);
        }
    }
    // Accumulate the magnitude, capped just above the largest magnitude an
    // i32 literal can denote; once the cap is hit the exact value no longer
    // matters.
    let cap: u64 = 2147483649;
    let mut acc: u64 = 0;
    let mut i: usize = start;
    while i < n
        invariant
            start <= i <= n,
            n == s@.len(),
            start < n,
            mag == s@.subrange(start as int, n as int),
            all_digits(s@.subrange(start as int, i as int)),
            acc <= cap,
            digits_val(s@.subrange(start as int, i as int)) < cap ==> acc == digits_val(
                s@.subrange(start as int, i as int),
            ),
            digits_val(s@.subrange(start as int, i as int)) >= cap ==> acc == cap,
            digits_val(s@.subrange(start as int, i as int)) >= 0,
        decreases n - i,
    {
        let c = s.get_char(i);
        let cv = c as u32;
        if cv < 48 || cv > 57 {
            proof {
                assert(mag[i as int - start as int] == s@[i as int]);
                assert(!all_digits(mag));
            }
            return None;
        }
        let d = (cv - 48) as u64;
        proof {
            let pref = s@.subrange(start as int, i as int);
            let prefx = s@.subrange(start as int, (i + 1) as int);
            assert(prefx.drop_last() =~= pref);
            assert(prefx.last() == s@[i as int]);
            assert(digits_val(prefx) == digits_val(pref) * 10 + digit_val(s@[i as int]));
            assert(digit_val(s@[i as int]) == d);
        }
        if acc >= 214748365 {
            // acc * 10 would already be at or above the cap
            acc = cap;
        } else {
            let next = acc * 10 + d;
            if next >= cap {
                acc = cap;
            } else {
                acc = next;
            }
        }
        i += 1;
    }
    proof {
        assert(mag =~= s@.subrange(start as int, i as int));
        assert(mag.len() > 0);
    }
    if neg {
        if acc <= 2147483648 {
            proof {
                assert(digits_val(mag) == acc);
            }
            if acc == 2147483648 {
                Some(i32::MIN)
            } else {
                Some(-(acc as i32))
            }
        } else {
            None
        }
    } else {
        if acc <= 2147483647 {
            proof {
                assert(digits_val(mag) == acc);
            }
            Some(acc as i32)
        } else {
            None
        }
    }
}

// ---------------------------------------------------------------------------
// Floating-point literals (syntax only)
// ---------------------------------------------------------------------------

/// Index of the first non-digit character of `s` at or after `i`
/// (`s.len()` if all remaining characters are digits).
pub open spec fn digits_run_end(s: Seq<char>, i: int) -> int
    decreases s.len() - i when i <= s.len()
{
    if 0 <= i < s.len() && is_digit_char(s[i]) {
        digits_run_end(s, i + 1)
    } else {
        i
    }
}

/// `c` equals the (lowercase ASCII) character `k`, ignoring ASCII case.
pub open spec fn char_eq_lower(c: char, k: char) -> bool {
    c as u32 == k as u32 || c as u32 + 32 == k as u32
}

/// `s` spells the lowercase-ASCII word `kw`, ignoring ASCII case.
pub open spec fn spells_word(s: Seq<char>, kw: Seq<char>) -> bool {
    s.len() == kw.len() && forall|i: int| 0 <= i < s.len() ==> char_eq_lower(#[trigger] s[i], kw[i])
}

/// `s` is one of the special floating-point words: inf, infinity, nan
/// (any ASCII case).
pub open spec fn is_float_special(s: Seq<char>) -> bool {
    ||| spells_word(s, seq!['i', 'n', 'f'])
    ||| spells_word(s, seq!['i', 'n', 'f', 'i', 'n', 'i', 't', 'y'])
    ||| spells_word(s, seq!['n', 'a', 'n'])
}

/// A well-formed exponent tail: an optional sign followed by at least one
/// digit, running to the end of `s`.
pub open spec fn exponent_ok(s: Seq<char>, i: int) -> bool {
    let j = if i < s.len() && (s[i] == '+' || s[i] == '-') {
        i + 1
    } else {
        i
    };
    j < s.len() && digits_run_end(s, j) == s.len()
}

/// An unsigned floating-point number: digits, an optional point with
/// digits on at least one side, and an optional exponent.
pub open spec fn is_float_number(s: Seq<char>) -> bool {
    let a = digits_run_end(s, 0);
    if a == s.len() {
        a > 0
    } else if s[a] == '.' {
        let b = digits_run_end(s, a + 1);
        let ndigits = a + b - (a + 1);
        if b == s.len() {
            ndigits > 0
        } else if s[b] == 'e' || s[b] == 'E' {
            ndigits > 0 && exponent_ok(s, b + 1)
        } else {
            false
        }
    } else if s[a] == 'e' || s[a] == 'E' {
        a > 0 && exponent_ok(s, a + 1)
    } else {
        false
    }
}

/// `s` is a well-formed 32-bit floating-point literal: an optional sign
/// followed by a number or one of the special words. This is the set of
/// strings a float argument accepts; the engine checks the syntax and
/// passes the text on without holding the numeric value.
pub open spec fn is_f32_literal(s: Seq<char>) -> bool {
    let body = if s.len() > 0 && (s[0] == '+' || s[0] == '-') {
        s.subrange(1, s.len() as int)
    } else {
        s
    };
    is_float_special(body) || is_float_number(body)
}

/// Scan the digit run of `s` starting at `from`.
fn scan_digits(s: &str, from: usize) -> (j: usize)
    requires
        from <= s@.len(),
    ensures
        j == digits_run_end(s@, from as int),
        from <= j <= s@.len(),
{
    let n = s.unicode_len();
    let mut i = from;
    while i < n
        invariant
            from <= i <= n,
            digits_run_end(s@, from as int) == digits_run_end(s@, i as int),
        decreases n - i,
    {
        let c = s.get_char(i);
        let cv = c as u32;
        if cv < 48 || cv > 57 {
            return i;
        }
        i += 1;
    }
    i
}

/// Does `s`, from position `start` on, spell `word` (lowercase ASCII),
/// ignoring ASCII case and running exactly to the end of `s`?
fn spells_word_from(s: &str, start: usize, word: &str) -> (r: bool)
    requires
        start <= s@.len(),
    ensures
        r == spells_word(s@.subrange(start as int, s@.len() as int), word@),
{
    let n = s.unicode_len();
    let m = word.unicode_len();
    if n - start != m {
        return false;
    }
    let ghost body = s@.subrange(start as int, s@.len() as int);
    let mut i: usize = 0;
    while i < m
        invariant
            0 <= i <= m,
            m == word@.len(),
            n == s@.len(),
            start + m == n,
            body == s@.subrange(start as int, s@.len() as int),
            forall|k: int| 0 <= k < i ==> char_eq_lower(#[trigger] body[k], word@[k]),
        decreases m - i,
    {
        let c = s.get_char(start + i);
        let k = word.get_char(i);
        let cv = c as u32;
        let kv = k as u32;
        if !(cv == kv || cv + 32 == kv) {
            proof {
                assert(body[i as int] == s@[start + i]);
                assert(!char_eq_lower(body[i as int], word@[i as int]));
            }
            return false;
        }
        proof {
            assert(body[i as int] == s@[start + i]);
        }
        i += 1;
    }
    true
}

/// Check the exponent tail of `s` beginning at `i`.
fn check_exponent(s: &str, i: usize) -> (r: bool)
    requires
        i <= s@.len(),
    ensures
        r == exponent_ok(s@, i as int),
{
    let n = s.unicode_len();
    let j = if i < n {
        let c = s.get_char(i);
        if c == '+' || c == '-' {
            i + 1
        } else {
            i
        }
    } else {
        i
    };
    if j >= n {
        return false;
    }
    let e = scan_digits(s, j);
    e == n
}

/// Decide whether `s` is a well-formed floating-point literal, accepting
/// exactly the strings accepted by `is_f32_literal`.
pub fn is_f32_text(s: &str) -> (r: bool)
    ensures
        r == is_f32_literal(s@),
{
    let n = s.unicode_len();
    let start: usize = if n > 0 {
        let first = s.get_char(0);
        if first == '-' || first == '+' {
            1
        } else {
            0
        }
    } else {
        0
    };
    let ghost body = s@.subrange(start as int, s@.len() as int);
    proof {
        if start == 0 {
            assert(body =~= s@);
        }
        reveal_strlit("inf");
        reveal_strlit("infinity");
        reveal_strlit("nan");
        assert("inf"@ =~= seq!['i', 'n', 'f']);
        assert("infinity"@ =~= seq!['i', 'n', 'f', 'i', 'n', 'i', 't', 'y']);
        assert("nan"@ =~= seq!['n', 'a', 'n']);
    }
    if spells_word_from(s, start, "inf") || spells_word_from(s, start, "infinity")
        || spells_word_from(s, start, "nan") {
        return true;
    }
    // Number form: digits [. digits] [exponent]
    let a = scan_digits(s, start);
    proof {
        lemma_digits_run_shift(s@, start as int, start as int);
    }
    if a == n {
        return a > start;
    }
    let ca = s.get_char(a);
    if ca == '.' {
        let b = scan_digits(s, a + 1);
        proof {
            lemma_digits_run_shift(s@, start as int, a + 1);
        }
        let ndigits = (a - start) + (b - (a + 1));
        if b == n {
            ndigits > 0
        } else {
            let cb = s.get_char(b);
            if cb == 'e' || cb == 'E' {
                proof {
                    lemma_exponent_shift(s@, start as int, b + 1);
                }
                ndigits > 0 && check_exponent(s, b + 1)
            } else {
                false
            }
        }
    } else if ca == 'e' || ca == 'E' {
        proof {
            lemma_exponent_shift(s@, start as int, a + 1);
        }
        a > start && check_exponent(s, a + 1)
    } else {
        false
    }
}

/// Digit runs of a suffix line up with digit runs of the whole sequence:
/// scanning `s` from `i` and scanning the suffix of `s` that starts at
/// `start` from `i - start` stop at the same distance from `start`.
proof fn lemma_digits_run_shift(s: Seq<char>, start: int, i: int)
    requires
        0 <= start <= i <= s.len(),
    ensures
        digits_run_end(s.subrange(start, s.len() as int), i - start) == digits_run_end(s, i)
            - start,
    decreases s.len() - i,
{
    let body = s.subrange(start, s.len() as int);
    if i < s.len() && is_digit_char(s[i]) {
        assert(body[i - start] == s[i]);
        lemma_digits_run_shift(s, start, i + 1);
    } else {
        if i < s.len() {
            assert(body[i - start] == s[i]);
        }
    }
}

/// Exponent checks of a suffix line up with exponent checks of the whole
/// sequence in the same way.
proof fn lemma_exponent_shift(s: Seq<char>, start: int, i: int)
    requires
        0 <= start <= i <= s.len(),
    ensures
        exponent_ok(s.subrange(start, s.len() as int), i - start) == exponent_ok(s, i),
{
    let body = s.subrange(start, s.len() as int);
    if i < s.len() {
        assert(body[i - start] == s[i]);
    }
    let j = if i < s.len() && (s[i] == '+' || s[i] == '-') {
        i + 1
    } else {
        i
    };
    lemma_digits_run_shift(s, start, j);
}

} // verus!
