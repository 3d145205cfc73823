//! Recognizer for the texts that parse as a floating-point number.
//!
//! The standard library documents the exact grammar accepted by its
//! float parser: an optional sign, then one of the words `inf`, `infinity`
//! or `nan` (case-insensitive), or a number built from a digit run, an
//! optional fraction and an optional exponent.  Every string matching that
//! grammar parses successfully and every other string is rejected, so
//! acceptance is a pure function of the characters, stated here as spec
//! functions and decided by a verified recognizer.  Measurements keep their
//! numeric text; only acceptance is decided here.

use vstd::prelude::*;
use vstd::string::*;

verus! {

pub open spec fn is_digit_char(c: char) -> bool {
    c == '0' || c == '1' || c == '2' || c == '3' || c == '4' || c == '5' || c == '6' || c == '7'
        || c == '8' || c == '9'
}

/// ASCII lowercasing of one character; others pass through.
pub open spec fn lower_char(c: char) -> char {
    if c as u32 >= 65 && c as u32 <= 90 {
        (((c as u8) + 32) as char)
    } else {
        c
    }
}

pub open spec fn lower_seq(s: Seq<char>) -> Seq<char> {
    s.map_values(|c: char| lower_char(c))
}

/// The words the float parser accepts besides numbers, case-insensitive.
pub open spec fn is_special_word(t: Seq<char>) -> bool {
    lower_seq(t) == "inf"@ || lower_seq(t) == "infinity"@ || lower_seq(t) == "nan"@
}

/// Length of the run of digits at the head of `s`.
pub open spec fn digit_run(s: Seq<char>) -> nat
    decreases s.len(),
{
    if s.len() > 0 && is_digit_char(s[0]) {
        1 + digit_run(s.drop_first())
    } else {
        0
    }
}

/// `digit_run` counts exactly the leading digits.
pub proof fn lemma_digit_run_char(s: Seq<char>, i: int)
    requires
        0 <= i <= s.len(),
        forall|k: int| 0 <= k < i ==> is_digit_char(s[k]),
        i < s.len() ==> !is_digit_char(s[i]),
    ensures
        digit_run(s) == i,
    decreases s.len(),
{
    if s.len() == 0 {
    } else if i == 0 {
    } else {
        assert(is_digit_char(s[0]));
        assert(forall|k: int| 0 <= k < i - 1 ==> s.drop_first()[k] == s[k + 1]);
        lemma_digit_run_char(s.drop_first(), i - 1);
    }
}

/// An exponent part: `e` or `E`, an optional sign, then only digits, at
/// least one.
pub open spec fn is_exp(r: Seq<char>) -> bool {
    r.len() > 0 && (r[0] == 'e' || r[0] == 'E') && {
        let b = if r.len() > 1 && (r[1] == '+' || r[1] == '-') {
            r.skip(2)
        } else {
            r.skip(1)
        };
        b.len() > 0 && digit_run(b) == b.len()
    }
}

pub open spec fn is_exp_or_empty(r: Seq<char>) -> bool {
    r.len() == 0 || is_exp(r)
}

/// What may follow the leading digit run of a number: nothing, a fraction
/// with an optional exponent, or an exponent.
pub open spec fn is_after_int(r: Seq<char>) -> bool {
    if r.len() == 0 {
        true
    } else if r[0] == '.' {
        let frac = r.drop_first();
        is_exp_or_empty(frac.skip(digit_run(frac) as int))
    } else {
        is_exp(r)
    }
}

/// An unsigned number: digits with optional fraction and exponent, or a
/// fraction starting with the decimal point, with at least one digit.
pub open spec fn is_number_text(t: Seq<char>) -> bool {
    let n1 = digit_run(t);
    if n1 > 0 {
        is_after_int(t.skip(n1 as int))
    } else if t.len() > 0 && t[0] == '.' {
        let frac = t.drop_first();
        digit_run(frac) > 0 && is_exp_or_empty(frac.skip(digit_run(frac) as int))
    } else {
        false
    }
}

/// Whether `s` parses as a floating-point number: an optional sign, then a
/// special word or a number.
pub open spec fn is_float_text(s: Seq<char>) -> bool {
    let t = if s.len() > 0 && (s[0] == '+' || s[0] == '-') {
        s.drop_first()
    } else {
        s
    };
    is_special_word(t) || is_number_text(t)
}

fn lower_char_exec(c: char) -> (r: char)
    ensures
        r == lower_char(c),
{
    let x = c as u32;
    if x >= 65 && x <= 90 {
        ((c as u8) + 32) as char
    } else {
        c
    }
}

fn is_digit_exec(c: char) -> (r: bool)
    ensures
        r == is_digit_char(c),
{
    c == '0' || c == '1' || c == '2' || c == '3' || c == '4' || c == '5' || c == '6' || c == '7'
        || c == '8' || c == '9'
}

/// Whether the characters of `s` from `p` on, lowercased, spell `w`.
fn eq_lower_from(s: &str, p: usize, w: &str) -> (r: bool)
    requires
        p <= s@.len(),
    ensures
        r == (lower_seq(s@.skip(p as int)) == w@),
{
    let n = s.unicode_len();
    let m = w.unicode_len();
    if n - p != m {
        proof {
            assert(lower_seq(s@.skip(p as int)).len() == n - p);
        }
        return false;
    }
    let mut i: usize = 0;
    while i < m
        invariant
            i <= m,
            n == s@.len(),
            p + m == n,
            m == w@.len(),
            forall|k: int| 0 <= k < i ==> lower_char(s@[p + k]) == w@[k],
        decreases m - i,
    {
        if lower_char_exec(s.get_char(p + i)) != w.get_char(i) {
            proof {
                assert(lower_seq(s@.skip(p as int))[i as int] == lower_char(s@[p + i]));
            }
            return false;
        }
        i += 1;
    }
    proof {
        assert(lower_seq(s@.skip(p as int)) =~= w@);
    }
    true
}

/// First index at or after `p` that does not hold a digit.
fn digit_run_from(s: &str, p: usize) -> (q: usize)
    requires
        p <= s@.len(),
    ensures
        p <= q <= s@.len(),
        q - p == digit_run(s@.skip(p as int)),
        forall|k: int| p <= k < q ==> is_digit_char(s@[k]),
        q < s@.len() ==> !is_digit_char(s@[q as int]),
{
    let n = s.unicode_len();
    let mut q: usize = p;
    while q < n
        invariant
            p <= q <= n,
            n == s@.len(),
            forall|k: int| p <= k < q ==> is_digit_char(s@[k]),
        decreases n - q,
    {
        if !is_digit_exec(s.get_char(q)) {
            proof {
                assert(forall|k: int| 0 <= k < q - p ==> s@.skip(p as int)[k] == s@[p + k]);
                lemma_digit_run_char(s@.skip(p as int), q - p);
            }
            return q;
        }
        q += 1;
    }
    proof {
        assert(forall|k: int| 0 <= k < q - p ==> s@.skip(p as int)[k] == s@[p + k]);
        lemma_digit_run_char(s@.skip(p as int), q - p);
    }
    q
}

/// Whether the characters of `s` from `p` on form an exponent part.
fn exp_from(s: &str, p: usize) -> (r: bool)
    requires
        p <= s@.len(),
    ensures
        r == is_exp(s@.skip(p as int)),
{
    let ghost t = s@.skip(p as int);
    let n = s.unicode_len();
    if p >= n {
        return false;
    }
    let c0 = s.get_char(p);
    proof {
        assert(t[0] == s@[p as int]);
    }
    if !(c0 == 'e' || c0 == 'E') {
        return false;
    }
    let body: usize = if p + 1 < n {
        let c1 = s.get_char(p + 1);
        proof {
            assert(t[1] == s@[p + 1]);
        }
        if c1 == '+' || c1 == '-' {
            p + 2
        } else {
            p + 1
        }
    } else {
        p + 1
    };
    let ghost b = if t.len() > 1 && (t[1] == '+' || t[1] == '-') {
        t.skip(2)
    } else {
        t.skip(1)
    };
    proof {
        assert(b =~= s@.skip(body as int));
    }
    if body >= n {
        return false;
    }
    let q = digit_run_from(s, body);
    proof {
        assert(b.len() == n - body);
    }
    q == n
}

/// Whether `s` parses as a floating-point number.  Acceptance is decided
/// here by the documented grammar; the numeric value itself is never needed
/// by this crate.
pub fn is_float_literal(s: &str) -> (r: bool)
    ensures
        r == is_float_text(s@),
{
    let n = s.unicode_len();
    let start: usize = if n > 0 {
        let c0 = s.get_char(0);
        if c0 == '+' || c0 == '-' {
            1
        } else {
            0
        }
    } else {
        0
    };
    let ghost t = if s@.len() > 0 && (s@[0] == '+' || s@[0] == '-') {
        s@.drop_first()
    } else {
        s@
    };
    proof {
        assert(t =~= s@.skip(start as int));
    }
    if eq_lower_from(s, start, "inf") || eq_lower_from(s, start, "infinity") || eq_lower_from(
        s,
        start,
        "nan",
    ) {
        return true;
    }
    let n1 = digit_run_from(s, start);
    proof {
        assert(digit_run(t) == n1 - start);
    }
    if n1 > start {
        // after the integer part
        let ghost rest = t.skip((n1 - start) as int);
        proof {
            assert(rest =~= s@.skip(n1 as int));
        }
        if n1 == n {
            true
        } else if s.get_char(n1) == '.' {
            proof {
                assert(rest[0] == s@[n1 as int]);
            }
            let n2 = digit_run_from(s, n1 + 1);
            let ghost frac = rest.drop_first();
            proof {
                assert(frac =~= s@.skip(n1 + 1));
                assert(frac.skip(digit_run(frac) as int) =~= s@.skip(n2 as int));
            }
            if n2 == n {
                true
            } else {
                exp_from(s, n2)
            }
        } else {
            proof {
                assert(rest[0] == s@[n1 as int]);
            }
            exp_from(s, n1)
        }
    } else if start < n && s.get_char(start) == '.' {
        proof {
            assert(t[0] == s@[start as int]);
        }
        let n2 = digit_run_from(s, start + 1);
        let ghost frac = t.drop_first();
        proof {
            assert(frac =~= s@.skip(start + 1));
            assert(frac.skip(digit_run(frac) as int) =~= s@.skip(n2 as int));
        }
        if n2 == start + 1 {
            false
        } else if n2 == n {
            true
        } else {
            exp_from(s, n2)
        }
    } else {
        proof {
            if t.len() > 0 {
                assert(t[0] == s@[start as int]);
            }
        }
        false
    }
}

} // verus!
