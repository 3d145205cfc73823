//! Small verified string primitives: character search, equality, splitting
//! on a separator, decimal rendering, and comma-joining.  Everything here is
//! executable code proved against the spec functions it exports; nothing is
//! trusted.

use vstd::prelude::*;
use vstd::string::*;

verus! {

/// Index of the first occurrence of `sep` in `s`, or `s.len()` when absent.
pub open spec fn sep_index(s: Seq<char>, sep: char) -> nat
    decreases s.len(),
{
    if s.len() == 0 {
        0
    } else if s[0] == sep {
        0
    } else {
        1 + sep_index(s.drop_first(), sep)
    }
}

/// `sep_index` is what its name says: the first index holding `sep`, or the
/// length when no index does.
pub proof fn lemma_sep_index_char(s: Seq<char>, sep: char, i: int)
    requires
        0 <= i <= s.len(),
        forall|k: int| 0 <= k < i ==> s[k] != sep,
        i < s.len() ==> s[i] == sep,
    ensures
        sep_index(s, sep) == i,
    decreases s.len(),
{
    if s.len() == 0 {
    } else if i == 0 {
    } else {
        assert(s[0] != sep);
        assert(forall|k: int| 0 <= k < i - 1 ==> s.drop_first()[k] == s[k + 1]);
        lemma_sep_index_char(s.drop_first(), sep, i - 1);
    }
}

/// `sep_index` never passes the end of the sequence, and lands on `sep`
/// whenever it is inside it.
pub proof fn lemma_sep_index_bounds(s: Seq<char>, sep: char)
    ensures
        sep_index(s, sep) <= s.len(),
        sep_index(s, sep) < s.len() ==> s[sep_index(s, sep) as int] == sep,
        forall|k: int| 0 <= k < sep_index(s, sep) ==> s[k] != sep,
    decreases s.len(),
{
    if s.len() == 0 {
    } else if s[0] == sep {
    } else {
        lemma_sep_index_bounds(s.drop_first(), sep);
        assert(forall|k: int| 1 <= k < sep_index(s, sep) ==> s[k] == s.drop_first()[k - 1]);
    }
}

/// The segments of `s` between occurrences of `sep`, in order.  A sequence
/// without the separator is one segment; each separator ends a segment.
pub open spec fn split_on(s: Seq<char>, sep: char) -> Seq<Seq<char>>
    decreases s.len(),
{
    let i = sep_index(s, sep);
    if i >= s.len() {
        seq![s]
    } else {
        seq![s.take(i as int)] + split_on(s.skip(i as int + 1), sep)
    }
}

/// Splitting never yields an empty segment list.
pub proof fn lemma_split_on_len(s: Seq<char>, sep: char)
    ensures
        split_on(s, sep).len() >= 1,
    decreases s.len(),
{
    let i = sep_index(s, sep);
    lemma_sep_index_bounds(s, sep);
    if i < s.len() {
        lemma_split_on_len(s.skip(i as int + 1), sep);
    }
}

/// When `head` is free of the separator, splitting `head + sep + rest`
/// yields `head` and then the segments of `rest`.
pub proof fn lemma_split_on_step(head: Seq<char>, rest: Seq<char>, sep: char)
    requires
        forall|k: int| 0 <= k < head.len() ==> head[k] != sep,
    ensures
        split_on(head + seq![sep] + rest, sep) == seq![head] + split_on(rest, sep),
{
    let s = head + seq![sep] + rest;
    assert(s.len() == head.len() + 1 + rest.len());
    assert(forall|k: int| 0 <= k < head.len() ==> s[k] == head[k]);
    assert(s[head.len() as int] == sep);
    lemma_sep_index_char(s, sep, head.len() as int);
    assert(s.take(head.len() as int) =~= head);
    assert(s.skip(head.len() as int + 1) =~= rest);
}

/// A sequence without the separator splits into itself alone.
pub proof fn lemma_split_on_whole(s: Seq<char>, sep: char)
    requires
        forall|k: int| 0 <= k < s.len() ==> s[k] != sep,
    ensures
        split_on(s, sep) == seq![s],
{
    lemma_sep_index_char(s, sep, s.len() as int);
}

/// Whether two string slices hold the same characters.
pub fn str_eq(a: &str, b: &str) -> (r: bool)
    ensures
        r == (a@ == b@),
{
    let alen = a.unicode_len();
    let blen = b.unicode_len();
    if alen != blen {
        return false;
    }
    let mut i: usize = 0;
    while i < alen
        invariant
            i <= alen,
            alen == a@.len(),
            alen == b@.len(),
            forall|k: int| 0 <= k < i ==> a@[k] == b@[k],
        decreases alen - i,
    {
        if a.get_char(i) != b.get_char(i) {
            return false;
        }
        i += 1;
    }
    proof {
        assert(a@ =~= b@);
    }
    true
}

/// Index of the first occurrence of `c` in `s`, or the length when absent.
pub fn find_char(s: &str, c: char) -> (i: usize)
    ensures
        i as nat == sep_index(s@, c),
        i <= s@.len(),
{
    let n = s.unicode_len();
    let mut i: usize = 0;
    while i < n
        invariant
            i <= n,
            n == s@.len(),
            forall|k: int| 0 <= k < i ==> s@[k] != c,
        decreases n - i,
    {
        if s.get_char(i) == c {
            proof {
                lemma_sep_index_char(s@, c, i as int);
            }
            return i;
        }
        i += 1;
    }
    proof {
        lemma_sep_index_char(s@, c, i as int);
    }
    i
}

/// The character for one decimal digit.
pub open spec fn spec_digit(d: nat) -> char {
    if d == 0 {
        '0'
    } else if d == 1 {
        '1'
    } else if d == 2 {
        '2'
    } else if d == 3 {
        '3'
    } else if d == 4 {
        '4'
    } else if d == 5 {
        '5'
    } else if d == 6 {
        '6'
    } else if d == 7 {
        '7'
    } else if d == 8 {
        '8'
    } else {
        '9'
    }
}

/// The decimal rendering of `n`, most significant digit first, without
/// leading zeros (a single zero for zero itself).
pub open spec fn spec_udec(n: nat) -> Seq<char>
    decreases n,
{
    if n < 10 {
        seq![spec_digit(n)]
    } else {
        spec_udec(n / 10).push(spec_digit(n % 10))
    }
}

fn digit_str(d: u32) -> (r: &'static str)
    requires
        d < 10,
    ensures
        r@ == seq![spec_digit(d as nat)],
{
    proof {
        reveal_strlit("0");
        reveal_strlit("1");
        reveal_strlit("2");
        reveal_strlit("3");
        reveal_strlit("4");
        reveal_strlit("5");
        reveal_strlit("6");
        reveal_strlit("7");
        reveal_strlit("8");
        reveal_strlit("9");
    }
    let r = if d == 0 {
        "0"
    } else if d == 1 {
        "1"
    } else if d == 2 {
        "2"
    } else if d == 3 {
        "3"
    } else if d == 4 {
        "4"
    } else if d == 5 {
        "5"
    } else if d == 6 {
        "6"
    } else if d == 7 {
        "7"
    } else if d == 8 {
        "8"
    } else {
        "9"
    };
    proof {
        assert(r@ =~= seq![spec_digit(d as nat)]);
    }
    r
}

/// The decimal rendering of `n`, as `u32::to_string` would give it.
pub fn u32_to_string(n: u32) -> (s: String)
    ensures
        s@ == spec_udec(n as nat),
    decreases n,
{
    if n < 10 {
        String::from_str(digit_str(n))
    } else {
        let s = u32_to_string(n / 10);
        s.concat(digit_str(n % 10))
    }
}

/// The items joined by a comma-and-space separator.
pub open spec fn spec_join_comma(items: Seq<Seq<char>>) -> Seq<char>
    decreases items.len(),
{
    if items.len() == 0 {
        Seq::empty()
    } else if items.len() == 1 {
        items[0]
    } else {
        items[0] + seq![',', ' '] + spec_join_comma(items.drop_first())
    }
}

/// Appending one item to a join appends a separator and the item, except to
/// an empty join.
pub proof fn lemma_join_comma_push(items: Seq<Seq<char>>, x: Seq<char>)
    ensures
        items.len() == 0 ==> spec_join_comma(items.push(x)) == x,
        items.len() > 0 ==> spec_join_comma(items.push(x)) == spec_join_comma(items) + seq![
            ',',
            ' ',
        ] + x,
    decreases items.len(),
{
    let p = items.push(x);
    if items.len() == 0 {
        assert(p.len() == 1);
        assert(p[0] == x);
    } else if items.len() == 1 {
        assert(p.len() == 2);
        assert(p[0] == items[0]);
        assert(p.drop_first() =~= seq![x]);
        assert(spec_join_comma(seq![x]) == x);
    } else {
        assert(p.drop_first() =~= items.drop_first().push(x));
        lemma_join_comma_push(items.drop_first(), x);
        assert(p[0] == items[0]);
        assert(items[0] + seq![',', ' '] + (spec_join_comma(items.drop_first()) + seq![',', ' ']
            + x) =~= (items[0] + seq![',', ' '] + spec_join_comma(items.drop_first())) + seq![
            ',',
            ' ',
        ] + x);
    }
}

} // verus!
