//! Comparing and searching.

use vstd::prelude::*;

use crate::text::chars::{chars_of, hex_digit, is_hex_digit, lower_char, small, string_of};

verus! {

/// `s` with every ASCII capital made small.
pub open spec fn lower(s: Seq<char>) -> Seq<char> {
    s.map_values(|c: char| lower_char(c))
}

/// Whether two texts differ in nothing but the case of ASCII letters.
pub open spec fn same_ignoring_case(a: Seq<char>, b: Seq<char>) -> bool {
    lower(a) == lower(b)
}

/// Whether `part` stands in `s` at index `i`.
pub open spec fn occurs_at(s: Seq<char>, part: Seq<char>, i: int) -> bool {
    &&& 0 <= i
    &&& i + part.len() <= s.len()
    &&& s.subrange(i, i + part.len()) == part
}

/// Whether `part` stands somewhere in `s`.
pub open spec fn holds(s: Seq<char>, part: Seq<char>) -> bool {
    exists|i: int| occurs_at(s, part, i)
}

/// Whether `s` begins with `p`.
pub open spec fn begins(s: Seq<char>, p: Seq<char>) -> bool {
    p.len() <= s.len() && s.take(p.len() as int) == p
}

/// Whether `s` ends with `p`.
pub open spec fn finishes(s: Seq<char>, p: Seq<char>) -> bool {
    p.len() <= s.len() && s.skip(s.len() - p.len()) == p
}

/// What follows the prefix `p` of `s`, if `s` begins with it.
pub open spec fn after(s: Seq<char>, p: Seq<char>) -> Option<Seq<char>> {
    if begins(s, p) {
        Some(s.skip(p.len() as int))
    } else {
        None
    }
}

/// What precedes the suffix `p` of `s`, if `s` ends with it.
pub open spec fn before(s: Seq<char>, p: Seq<char>) -> Option<Seq<char>> {
    if finishes(s, p) {
        Some(s.take(s.len() - p.len()))
    } else {
        None
    }
}

/// What follows the first occurrence of `part`.
pub open spec fn past(s: Seq<char>, part: Seq<char>) -> Option<Seq<char>>
    decreases s.len(),
{
    if s.len() < part.len() {
        None
    } else if begins(s, part) {
        Some(s.skip(part.len() as int))
    } else if s.len() == 0 {
        None
    } else {
        past(s.skip(1), part)
    }
}


/// The index of the first `c` in `s`, or the length of `s`.
pub open spec fn first_index(s: Seq<char>, c: char) -> int
    decreases s.len(),
{
    if s.len() == 0 {
        0
    } else if s[0] == c {
        0
    } else {
        1 + first_index(s.skip(1), c)
    }
}

/// The index of the last `c` in `s`, or -1.
pub open spec fn last_index(s: Seq<char>, c: char) -> int
    decreases s.len(),
{
    if s.len() == 0 {
        -1
    } else if s.last() == c {
        s.len() - 1
    } else {
        last_index(s.drop_last(), c)
    }
}

/// What stands on either side of the first `c` in `s`, if there is one.
pub open spec fn split_once(s: Seq<char>, c: char) -> Option<(Seq<char>, Seq<char>)> {
    let i = first_index(s, c);
    if i < s.len() {
        Some((s.take(i), s.skip(i + 1)))
    } else {
        None
    }
}

/// The part of `s` before the first `c`, or all of it.
pub open spec fn up_to(s: Seq<char>, c: char) -> Seq<char> {
    s.take(first_index(s, c))
}

/// `first_index` finds the first occurrence, or none.
pub proof fn lemma_first_index(s: Seq<char>, c: char)
    ensures
        0 <= first_index(s, c) <= s.len(),
        forall|i: int| 0 <= i < first_index(s, c) ==> s[i] != c,
        first_index(s, c) < s.len() ==> s[first_index(s, c)] == c,
    decreases s.len(),
{
    if s.len() > 0 && s[0] != c {
        lemma_first_index(s.skip(1), c);
        assert forall|i: int| 0 <= i < first_index(s, c) implies s[i] != c by {
            if i > 0 {
                assert(s.skip(1)[i - 1] == s[i]);
            }
        }
    }
}

/// Nothing but the first occurrence has no earlier one.
pub proof fn lemma_first_index_unique(s: Seq<char>, c: char, k: int)
    requires
        0 <= k <= s.len(),
        forall|i: int| 0 <= i < k ==> s[i] != c,
        k < s.len() ==> s[k] == c,
    ensures
        first_index(s, c) == k,
{
    lemma_first_index(s, c);
}

/// `last_index` finds the last occurrence, or none.
pub proof fn lemma_last_index(s: Seq<char>, c: char)
    ensures
        -1 <= last_index(s, c) < s.len(),
        forall|i: int| last_index(s, c) < i < s.len() ==> s[i] != c,
        last_index(s, c) >= 0 ==> s[last_index(s, c)] == c,
    decreases s.len(),
{
    if s.len() > 0 && s.last() != c {
        lemma_last_index(s.drop_last(), c);
        assert forall|i: int| last_index(s, c) < i < s.len() implies s[i] != c by {
            if i < s.len() - 1 {
                assert(s.drop_last()[i] == s[i]);
            }
        }
    }
}

/// Whether `a` and `b` are the same text.
pub fn same(a: &str, b: &str) -> (r: bool)
    ensures
        r == (a@ == b@),
{
    let x: String = a.to_owned();
    let y: String = b.to_owned();
    x == y
}

/// Whether `part` stands in `s` at index `i`.
fn matches_at(s: &Vec<char>, part: &Vec<char>, i: usize) -> (r: bool)
    requires
        i + part@.len() <= s@.len(),
    ensures
        r == occurs_at(s@, part@, i as int),
{
    let n: usize = s.len();
    let mut j: usize = 0;
    while j < part.len()
        invariant
            j <= part@.len(),
            i + part@.len() <= s@.len(),
            n == s@.len(),
            forall|k: int| 0 <= k < j ==> s@[i + k] == part@[k],
        decreases part@.len() - j,
    {
        if s[i + j] != part[j] {
            assert(s@.subrange(i as int, i + part@.len())[j as int] == s@[i + j]);
            return false;
        }
        j = j + 1;
    }
    assert(s@.subrange(i as int, i + part@.len()) =~= part@);
    true
}

/// Whether `part` stands somewhere in `s`.
pub fn contains(s: &str, part: &str) -> (r: bool)
    ensures
        r == holds(s@, part@),
{
    let a: Vec<char> = chars_of(s);
    let b: Vec<char> = chars_of(part);
    if b.len() > a.len() {
        return false;
    }
    let last: usize = a.len() - b.len();
    let mut i: usize = 0;
    while i <= last
        invariant
            a@ == s@,
            b@ == part@,
            b@.len() <= a@.len(),
            last == a@.len() - b@.len(),
            i <= last + 1,
            forall|k: int| 0 <= k < i ==> !occurs_at(s@, part@, k),
        decreases last + 1 - i,
    {
        if matches_at(&a, &b, i) {
            return true;
        }
        if i == last {
            return false;
        }
        i = i + 1;
    }
    false
}

/// Whether `s` begins with `p`.
pub fn starts_with(s: &str, p: &str) -> (r: bool)
    ensures
        r == begins(s@, p@),
{
    let a: Vec<char> = chars_of(s);
    let b: Vec<char> = chars_of(p);
    if b.len() > a.len() {
        return false;
    }
    assert(a@.subrange(0, b@.len() as int) =~= a@.take(b@.len() as int));
    matches_at(&a, &b, 0)
}

/// Whether `s` ends with `p`.
pub fn ends_with(s: &str, p: &str) -> (r: bool)
    ensures
        r == finishes(s@, p@),
{
    let a: Vec<char> = chars_of(s);
    let b: Vec<char> = chars_of(p);
    if b.len() > a.len() {
        return false;
    }
    let at: usize = a.len() - b.len();
    assert(a@.subrange(at as int, at + b@.len()) =~= a@.skip(at as int));
    matches_at(&a, &b, at)
}

/// The part of `s` from index `i` on.
pub fn tail(s: &str, i: usize) -> (r: String)
    requires
        i <= s@.len(),
    ensures
        r@ == s@.skip(i as int),
{
    let a: Vec<char> = chars_of(s);
    assert(a@.subrange(i as int, a@.len() as int) =~= a@.skip(i as int));
    let n: usize = a.len();
    string_of(&a, i, n)
}

/// The part of `s` before index `i`.
pub fn head(s: &str, i: usize) -> (r: String)
    requires
        i <= s@.len(),
    ensures
        r@ == s@.take(i as int),
{
    let a: Vec<char> = chars_of(s);
    assert(a@.subrange(0, i as int) =~= a@.take(i as int));
    string_of(&a, 0, i)
}

/// What follows the prefix `p` of `s`, if `s` begins with it.
pub fn strip_prefix(s: &str, p: &str) -> (r: Option<String>)
    ensures
        r.deep_view() == after(s@, p@),
{
    if starts_with(s, p) {
        let n: usize = p.unicode_len();
        Some(tail(s, n))
    } else {
        None
    }
}

/// What precedes the suffix `p` of `s`, if `s` ends with it.
pub fn strip_suffix(s: &str, p: &str) -> (r: Option<String>)
    ensures
        r.deep_view() == before(s@, p@),
{
    if ends_with(s, p) {
        let n: usize = s.unicode_len();
        let m: usize = p.unicode_len();
        Some(head(s, n - m))
    } else {
        None
    }
}

/// The index of the first `c` in `s`, or its length.
pub fn find_char(s: &str, c: char) -> (i: usize)
    ensures
        i == first_index(s@, c),
        i <= s@.len(),
{
    let a: Vec<char> = chars_of(s);
    let mut i: usize = 0;
    while i < a.len()
        invariant
            a@ == s@,
            i <= a@.len(),
            forall|k: int| 0 <= k < i ==> a@[k] != c,
        decreases a@.len() - i,
    {
        if a[i] == c {
            proof {
                lemma_first_index_unique(s@, c, i as int);
            }
            return i;
        }
        i = i + 1;
    }
    proof {
        lemma_first_index_unique(s@, c, i as int);
    }
    i
}

/// The index of the last `c` in `s`.
pub fn rfind_char(s: &str, c: char) -> (r: Option<usize>)
    ensures
        match r {
            Some(i) => i == last_index(s@, c) && i < s@.len(),
            None => last_index(s@, c) == -1,
        },
{
    let a: Vec<char> = chars_of(s);
    let mut i: usize = a.len();
    proof {
        lemma_last_index(s@, c);
    }
    while i > 0
        invariant
            a@ == s@,
            i <= a@.len(),
            forall|k: int| i <= k < a@.len() ==> a@[k] != c,
            -1 <= last_index(s@, c) < s@.len(),
            forall|k: int| last_index(s@, c) < k < s@.len() ==> s@[k] != c,
            last_index(s@, c) >= 0 ==> s@[last_index(s@, c)] == c,
        decreases i,
    {
        i = i - 1;
        if a[i] == c {
            return Some(i);
        }
    }
    None
}

/// What stands on either side of the first `c` in `s`, if there is one.
pub fn cut(s: &str, c: char) -> (r: Option<(String, String)>)
    ensures
        r.deep_view() == split_once(s@, c),
{
    let i: usize = find_char(s, c);
    let n: usize = s.unicode_len();
    if i < n {
        Some((head(s, i), tail(s, i + 1)))
    } else {
        None
    }
}

/// `s` with every ASCII capital made small.
pub fn to_lower(s: &str) -> (r: String)
    ensures
        r@ == lower(s@),
{
    let a: Vec<char> = chars_of(s);
    let mut r: String = String::new();
    let mut i: usize = 0;
    while i < a.len()
        invariant
            a@ == s@,
            i <= a@.len(),
            r@ == lower(s@.take(i as int)),
        decreases a@.len() - i,
    {
        r.push(small(a[i]));
        i = i + 1;
        assert(lower(s@.take(i as int)) =~= lower(s@.take(i - 1)).push(lower_char(s@[i - 1])));
    }
    assert(s@.take(i as int) =~= s@);
    r
}

/// Whether `a` and `b` differ in nothing but the case of ASCII letters.
pub fn same_ignore_case(a: &str, b: &str) -> (r: bool)
    ensures
        r == same_ignoring_case(a@, b@),
{
    let x: String = to_lower(a);
    let y: String = to_lower(b);
    x == y
}

/// Whether every character of `s` is a hexadecimal digit.
pub open spec fn all_hex(s: Seq<char>) -> bool {
    forall|i: int| 0 <= i < s.len() ==> is_hex_digit(#[trigger] s[i])
}

/// Whether every character of `s` is a hexadecimal digit.
pub fn is_all_hex(s: &str) -> (r: bool)
    ensures
        r == all_hex(s@),
{
    let a: Vec<char> = chars_of(s);
    let mut i: usize = 0;
    while i < a.len()
        invariant
            a@ == s@,
            i <= a@.len(),
            forall|k: int| 0 <= k < i ==> is_hex_digit(#[trigger] a@[k]),
        decreases a@.len() - i,
    {
        if !hex_digit(a[i]) {
            return false;
        }
        i = i + 1;
    }
    true
}

/// What follows the first occurrence of `part`.
pub fn after_first(s: &str, part: &str) -> (r: Option<String>)
    ensures
        r.deep_view() == past(s@, part@),
{
    let n: usize = s.unicode_len();
    let mut i: usize = 0;
    assert(s@.skip(0) =~= s@);
    while i < n
        invariant
            n == s@.len(),
            i <= n,
            past(s@, part@) == past(s@.skip(i as int), part@),
        decreases n - i,
    {
        let rest: String = tail(s, i);
        if starts_with(rest.as_str(), part) {
            return strip_prefix(rest.as_str(), part);
        }
        assert(s@.skip(i as int).skip(1) =~= s@.skip(i + 1));
        i = i + 1;
    }
    let rest: String = tail(s, n);
    strip_prefix(rest.as_str(), part)
}

/// A part that does not hold the character between two texts stands in the one
/// or in the other.
pub proof fn lemma_holds_around(a: Seq<char>, c: char, b: Seq<char>, part: Seq<char>)
    requires
        part.len() > 0,
        !part.contains(c),
    ensures
        holds(a + seq![c] + b, part) <==> holds(a, part) || holds(b, part),
{
    let s = a + seq![c] + b;
    let n = a.len() as int;
    if holds(a, part) {
        let i = choose|i: int| occurs_at(a, part, i);
        assert(s.subrange(i, i + part.len()) =~= a.subrange(i, i + part.len()));
        assert(occurs_at(s, part, i));
    }
    if holds(b, part) {
        let i = choose|i: int| occurs_at(b, part, i);
        assert(s.subrange(n + 1 + i, n + 1 + i + part.len()) =~= b.subrange(i, i + part.len()));
        assert(occurs_at(s, part, n + 1 + i));
    }
    if holds(s, part) {
        let i = choose|i: int| occurs_at(s, part, i);
        let there = s.subrange(i, i + part.len());
        if i + part.len() <= n {
            assert(a.subrange(i, i + part.len()) =~= there);
            assert(occurs_at(a, part, i));
        } else if i > n {
            assert(b.subrange(i - n - 1, i - n - 1 + part.len()) =~= there);
            assert(occurs_at(b, part, i - n - 1));
        } else {
            assert(there[n - i] == c);
            assert(part[n - i] == c);
        }
    }
}

} // verus!
