//! Building texts.

use vstd::prelude::*;

use crate::text::chars::chars_of;

verus! {

/// The texts in `parts`, with `sep` between each two.
pub open spec fn join(parts: Seq<Seq<char>>, sep: Seq<char>) -> Seq<char>
    decreases parts.len(),
{
    if parts.len() == 0 {
        Seq::empty()
    } else if parts.len() == 1 {
        parts[0]
    } else {
        join(parts.drop_last(), sep) + sep + parts.last()
    }
}

/// `n` spaces.
pub open spec fn spaces(n: int) -> Seq<char> {
    Seq::new(if n > 0 { n as nat } else { 0 }, |i: int| ' ')
}

/// `s` with spaces behind it, up to the width `w`.
pub open spec fn pad_right(s: Seq<char>, w: int) -> Seq<char> {
    s + spaces(w - s.len())
}

/// `s` with each `c` replaced by `with`.
pub open spec fn replace_char(s: Seq<char>, c: char, with: Seq<char>) -> Seq<char>
    decreases s.len(),
{
    if s.len() == 0 {
        Seq::empty()
    } else if s.last() == c {
        replace_char(s.drop_last(), c, with) + with
    } else {
        replace_char(s.drop_last(), c, with).push(s.last())
    }
}

/// The texts in `parts`, with `sep` between each two.
pub fn joined(parts: &[String], sep: &str) -> (r: String)
    ensures
        r@ == join(parts.deep_view(), sep@),
{
    let mut r: String = String::new();
    let ghost all = parts.deep_view();
    let mut i: usize = 0;
    while i < parts.len()
        invariant
            all == parts.deep_view(),
            i <= parts@.len(),
            r@ == join(all.take(i as int), sep@),
        decreases parts@.len() - i,
    {
        proof {
            assert(all[i as int] == parts@[i as int]@);
            assert(all.take(i + 1).drop_last() =~= all.take(i as int));
            assert(all.take(i + 1).last() == all[i as int]);
        }
        if i > 0 {
            r.append(sep);
        }
        r.append(parts[i].as_str());
        assert(i == 0 ==> r@ =~= all[0]);
        i = i + 1;
    }
    assert(all.take(i as int) =~= all);
    r
}

/// `s` with spaces behind it, up to the width `w`.
pub fn padded_right(s: &str, w: usize) -> (r: String)
    ensures
        r@ == pad_right(s@, w as int),
{
    let mut r: String = s.to_owned();
    let n: usize = s.unicode_len();
    let mut i: usize = n;
    assert(s@ + spaces(0) =~= s@);
    assert(n >= w ==> spaces(w - n) =~= spaces(0));
    while i < w
        invariant
            n == s@.len(),
            n <= i,
            n < w ==> i <= w,
            n >= w ==> i == n,
            r@ == s@ + spaces(i - n),
        decreases w - i,
    {
        r.push(' ');
        assert(spaces(i - n).push(' ') =~= spaces(i + 1 - n));
        assert((s@ + spaces(i - n)).push(' ') =~= s@ + spaces(i - n).push(' '));
        i = i + 1;
    }
    r
}

/// `s` with each `c` replaced by `with`.
pub fn replaced_char(s: &str, c: char, with: &str) -> (r: String)
    ensures
        r@ == replace_char(s@, c, with@),
{
    let a: Vec<char> = chars_of(s);
    let mut r: String = String::new();
    let mut i: usize = 0;
    while i < a.len()
        invariant
            a@ == s@,
            i <= a@.len(),
            r@ == replace_char(s@.take(i as int), c, with@),
        decreases a@.len() - i,
    {
        proof {
            assert(s@.take(i + 1).drop_last() =~= s@.take(i as int));
            assert(s@.take(i + 1).last() == s@[i as int]);
        }
        if a[i] == c {
            r.append(with);
        } else {
            r.push(a[i]);
        }
        i = i + 1;
    }
    assert(s@.take(i as int) =~= s@);
    r
}

/// A string holding the text `s`.
pub fn owned(s: &str) -> (r: String)
    ensures
        r@ == s@,
{
    s.to_owned()
}

/// Strings holding the texts `parts`.
pub fn owned_all(parts: &[&str]) -> (r: Vec<String>)
    ensures
        r.deep_view() == parts.deep_view(),
{
    let mut r: Vec<String> = Vec::new();
    let mut i: usize = 0;
    while i < parts.len()
        invariant
            i <= parts@.len(),
            r@.len() == i,
            forall|k: int| 0 <= k < i ==> #[trigger] r@[k]@ == parts@[k]@,
        decreases parts@.len() - i,
    {
        r.push(parts[i].to_owned());
        i = i + 1;
    }
    assert(r.deep_view() =~= parts.deep_view());
    r
}

/// Copies of the strings `parts`.
pub fn cloned_all(parts: &[String]) -> (r: Vec<String>)
    ensures
        r.deep_view() == parts.deep_view(),
{
    let mut r: Vec<String> = Vec::new();
    let mut i: usize = 0;
    while i < parts.len()
        invariant
            i <= parts@.len(),
            r@.len() == i,
            forall|k: int| 0 <= k < i ==> #[trigger] r@[k]@ == parts@[k]@,
        decreases parts@.len() - i,
    {
        r.push(parts[i].clone());
        i = i + 1;
    }
    assert(r.deep_view() =~= parts.deep_view());
    r
}

/// A copy of an optional string.
pub fn cloned_opt(s: &Option<String>) -> (r: Option<String>)
    ensures
        r.deep_view() == s.deep_view(),
{
    match s {
        Some(x) => Some(x.clone()),
        None => None,
    }
}

} // verus!
