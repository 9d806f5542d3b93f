//! The order of texts, and sorted lists of them.

use vstd::prelude::*;

use crate::text::chars::chars_of;

verus! {

/// Whether `a` stands before `b` in lexicographic order of code points, which
/// is the byte order of their UTF-8.
pub open spec fn precedes(a: Seq<char>, b: Seq<char>) -> bool
    decreases a.len(),
{
    if b.len() == 0 {
        false
    } else if a.len() == 0 {
        true
    } else if a[0] == b[0] {
        precedes(a.skip(1), b.skip(1))
    } else {
        (a[0] as int) < (b[0] as int)
    }
}

/// Whether each text stands strictly before the next ones.
pub open spec fn strictly_sorted(s: Seq<Seq<char>>) -> bool {
    forall|i: int, j: int| 0 <= i < j < s.len() ==> precedes(#[trigger] s[i], #[trigger] s[j])
}

/// `s` with `x` put before the first text that it precedes, unless it is there
/// already.
pub open spec fn insert_text(s: Seq<Seq<char>>, x: Seq<char>) -> Seq<Seq<char>>
    decreases s.len(),
{
    if s.len() == 0 {
        seq![x]
    } else if s.last() == x {
        s
    } else if precedes(s.last(), x) {
        s.push(x)
    } else {
        insert_text(s.drop_last(), x).push(s.last())
    }
}

/// The texts of `s` in order, each once.
pub open spec fn sorted_set(s: Seq<Seq<char>>) -> Seq<Seq<char>>
    decreases s.len(),
{
    if s.len() == 0 {
        Seq::empty()
    } else {
        insert_text(sorted_set(s.drop_last()), s.last())
    }
}

/// The order is irreflexive.
pub proof fn lemma_precedes_irreflexive(a: Seq<char>)
    ensures
        !precedes(a, a),
    decreases a.len(),
{
    if a.len() > 0 {
        lemma_precedes_irreflexive(a.skip(1));
    }
}

/// The order is transitive.
pub proof fn lemma_precedes_transitive(a: Seq<char>, b: Seq<char>, c: Seq<char>)
    requires
        precedes(a, b),
        precedes(b, c),
    ensures
        precedes(a, c),
    decreases a.len(),
{
    if a.len() > 0 && a[0] == b[0] && b[0] == c[0] {
        lemma_precedes_transitive(a.skip(1), b.skip(1), c.skip(1));
    }
}

/// The order of two texts is kept behind the same text.
pub proof fn lemma_precedes_behind(p: Seq<char>, a: Seq<char>, b: Seq<char>)
    requires
        precedes(a, b),
    ensures
        precedes(p + a, p + b),
    decreases p.len(),
{
    if p.len() == 0 {
        assert(p + a =~= a);
        assert(p + b =~= b);
    } else {
        assert((p + a).skip(1) =~= p.skip(1) + a);
        assert((p + b).skip(1) =~= p.skip(1) + b);
        lemma_precedes_behind(p.skip(1), a, b);
    }
}

/// Of two different texts one stands before the other.
pub proof fn lemma_precedes_total(a: Seq<char>, b: Seq<char>)
    ensures
        a == b || precedes(a, b) || precedes(b, a),
    decreases a.len(),
{
    if a.len() == 0 || b.len() == 0 {
        if a.len() == 0 && b.len() == 0 {
            assert(a =~= b);
        }
    } else if a[0] == b[0] {
        lemma_precedes_total(a.skip(1), b.skip(1));
        if a.skip(1) == b.skip(1) {
            assert(a =~= seq![a[0]] + a.skip(1));
            assert(b =~= seq![b[0]] + b.skip(1));
            assert(a == b);
        }
    } else {
        assert(a[0] as int != b[0] as int);
    }
}

/// Inserting keeps the list strictly sorted, and adds nothing but the text.
pub proof fn lemma_insert_text(s: Seq<Seq<char>>, x: Seq<char>)
    requires
        strictly_sorted(s),
    ensures
        strictly_sorted(insert_text(s, x)),
        insert_text(s, x).to_set() == s.to_set().insert(x),
    decreases s.len(),
{
    broadcast use vstd::seq_lib::group_seq_properties;

    let r = insert_text(s, x);
    if s.len() == 0 {
        assert(r.to_set() =~= s.to_set().insert(x)) by {
            assert(r[0] == x);
            assert forall|y: Seq<char>| r.to_set().contains(y) implies y == x by {
                let k = choose|k: int| 0 <= k < r.len() && r[k] == y;
            }
            assert(r.contains(x));
        }
    } else if s.last() == x {
        assert(s.contains(s[s.len() - 1]));
        assert(r.to_set() =~= s.to_set().insert(x));
    } else if precedes(s.last(), x) {
        assert forall|i: int, j: int| 0 <= i < j < r.len() implies precedes(
            #[trigger] r[i],
            #[trigger] r[j],
        ) by {
            if j == s.len() && i < s.len() - 1 {
                lemma_precedes_transitive(s[i], s.last(), x);
            }
        }
        assert(r.to_set() =~= s.to_set().insert(x)) by {
            assert forall|y: Seq<char>| r.to_set().contains(y) == s.to_set().insert(x).contains(
                y,
            ) by {
                if s.contains(y) {
                    let k = choose|k: int| 0 <= k < s.len() && s[k] == y;
                    assert(r[k] == y);
                }
                if y == x {
                    assert(r[s.len() as int] == y);
                }
                if r.contains(y) {
                    let k = choose|k: int| 0 <= k < r.len() && r[k] == y;
                    if k < s.len() {
                        assert(s[k] == y);
                    }
                }
            }
        }
    } else {
        lemma_precedes_total(s.last(), x);
        let d = insert_text(s.drop_last(), x);
        lemma_insert_text(s.drop_last(), x);
        assert forall|i: int, j: int| 0 <= i < j < r.len() implies precedes(
            #[trigger] r[i],
            #[trigger] r[j],
        ) by {
            if j == r.len() - 1 {
                assert(d[i] == r[i]);
                assert(d.to_set().contains(d[i])) by {
                    assert(d.contains(d[i]));
                }
                if d[i] != x {
                    assert(s.drop_last().contains(d[i]));
                    let k = choose|k: int|
                        0 <= k < s.drop_last().len() && s.drop_last()[k] == d[i];
                    assert(s[k] == d[i]);
                    assert(precedes(s[k], s[s.len() - 1]));
                }
            } else {
                assert(precedes(d[i], d[j]));
            }
        }
        assert(r.to_set() =~= s.to_set().insert(x)) by {
            assert forall|y: Seq<char>| r.to_set().contains(y) == s.to_set().insert(x).contains(
                y,
            ) by {
                if r.contains(y) {
                    let k = choose|k: int| 0 <= k < r.len() && r[k] == y;
                    if k < d.len() {
                        assert(d[k] == y);
                        assert(d.contains(y));
                        assert(d.to_set().contains(y));
                        if y != x {
                            assert(s.drop_last().contains(y));
                            let m = choose|m: int|
                                0 <= m < s.drop_last().len() && s.drop_last()[m] == y;
                            assert(s[m] == y);
                        }
                    } else {
                        assert(s[s.len() - 1] == y);
                    }
                }
                if s.contains(y) || y == x {
                    if y == s.last() && y != x {
                        assert(r[r.len() - 1] == y);
                    } else {
                        if y != x {
                            let m = choose|m: int| 0 <= m < s.len() && s[m] == y;
                            assert(s.drop_last()[m] == y);
                            assert(s.drop_last().contains(y));
                        }
                        assert(d.to_set().contains(y));
                        let k = choose|k: int| 0 <= k < d.len() && d[k] == y;
                        assert(r[k] == y);
                    }
                }
            }
        }
    }
}

/// `sorted_set` is strictly sorted and holds the same texts.
pub proof fn lemma_sorted_set(s: Seq<Seq<char>>)
    ensures
        strictly_sorted(sorted_set(s)),
        sorted_set(s).to_set() == s.to_set(),
    decreases s.len(),
{
    broadcast use vstd::seq_lib::group_seq_properties;

    if s.len() == 0 {
        assert(sorted_set(s).to_set() =~= s.to_set());
    } else {
        lemma_sorted_set(s.drop_last());
        lemma_insert_text(sorted_set(s.drop_last()), s.last());
        assert(s.to_set() =~= s.drop_last().to_set().insert(s.last())) by {
            assert forall|y: Seq<char>|
                s.to_set().contains(y) == s.drop_last().to_set().insert(s.last()).contains(y) by {
                if s.contains(y) {
                    let k = choose|k: int| 0 <= k < s.len() && s[k] == y;
                    if k < s.len() - 1 {
                        assert(s.drop_last()[k] == y);
                    }
                }
                if s.drop_last().contains(y) {
                    let k = choose|k: int| 0 <= k < s.drop_last().len() && s.drop_last()[k] == y;
                    assert(s[k] == y);
                }
                if y == s.last() {
                    assert(s[s.len() - 1] == y);
                }
            }
        }
    }
}

/// Whether `a` stands before `b`.
pub fn text_precedes(a: &str, b: &str) -> (r: bool)
    ensures
        r == precedes(a@, b@),
{
    let x: Vec<char> = chars_of(a);
    let y: Vec<char> = chars_of(b);
    let mut i: usize = 0;
    assert(a@.skip(0) =~= a@);
    assert(b@.skip(0) =~= b@);
    loop
        invariant
            x@ == a@,
            y@ == b@,
            i <= x@.len(),
            i <= y@.len(),
            precedes(a@, b@) == precedes(a@.skip(i as int), b@.skip(i as int)),
        decreases x@.len() - i,
    {
        if i == y.len() {
            return false;
        }
        if i == x.len() {
            return true;
        }
        proof {
            assert(a@.skip(i as int)[0] == a@[i as int]);
            assert(b@.skip(i as int)[0] == b@[i as int]);
            assert(a@.skip(i as int).skip(1) =~= a@.skip(i + 1));
            assert(b@.skip(i as int).skip(1) =~= b@.skip(i + 1));
        }
        if x[i] != y[i] {
            let c: char = x[i];
            let d: char = y[i];
            return c < d;
        }
        i = i + 1;
    }
}

/// Puts `x` into the sorted list, unless it is there already.
pub fn insert_into(list: &mut Vec<String>, x: &str)
    ensures
        final(list).deep_view() == insert_text(old(list).deep_view(), x@),
{
    let ghost all = list.deep_view();
    let mut i: usize = list.len();
    assert(all.take(i as int) =~= all);
    assert(all.skip(i as int) =~= Seq::<Seq<char>>::empty());
    assert(insert_text(all, x@) =~= insert_text(all.take(i as int), x@) + all.skip(i as int));
    while i > 0
        invariant
            i <= list@.len(),
            all == list.deep_view(),
            list@ == old(list)@,
            insert_text(all, x@) == insert_text(all.take(i as int), x@) + all.skip(i as int),
        decreases i,
    {
        proof {
            assert(all[i - 1] == list@[i - 1]@);
            assert(all.take(i as int).last() == all[i - 1]);
            assert(all.take(i as int).drop_last() =~= all.take(i - 1));
        }
        if crate::text::search::same(list[i - 1].as_str(), x) {
            assert(all.take(i as int) + all.skip(i as int) =~= all);
            return ;
        }
        if text_precedes(list[i - 1].as_str(), x) {
            assert(all.take(i as int).push(x@) + all.skip(i as int) =~= all.insert(i as int, x@));
            list.insert(i, x.to_owned());
            assert(list.deep_view() =~= all.insert(i as int, x@));
            return ;
        }
        proof {
            let d = insert_text(all.take(i - 1), x@);
            assert(d.push(all[i - 1]) + all.skip(i as int) =~= d + all.skip(i - 1));
        }
        i = i - 1;
    }
    assert(seq![x@] + all.skip(0) =~= all.insert(0, x@));
    list.insert(0, x.to_owned());
    assert(list.deep_view() =~= all.insert(0, x@));
}

/// The texts of `list` in order, each once.
pub fn sort_unique(list: &[String]) -> (r: Vec<String>)
    ensures
        r.deep_view() == sorted_set(list.deep_view()),
{
    let mut r: Vec<String> = Vec::new();
    let ghost all = list.deep_view();
    let mut i: usize = 0;
    assert(r.deep_view() =~= sorted_set(all.take(0)));
    while i < list.len()
        invariant
            all == list.deep_view(),
            i <= list@.len(),
            r.deep_view() == sorted_set(all.take(i as int)),
        decreases list@.len() - i,
    {
        insert_into(&mut r, list[i].as_str());
        proof {
            assert(all[i as int] == list@[i as int]@);
            assert(all.take(i + 1).drop_last() =~= all.take(i as int));
            assert(all.take(i + 1).last() == all[i as int]);
        }
        i = i + 1;
    }
    assert(all.take(i as int) =~= all);
    r
}

/// Whether the texts in `list` hold `x`.
pub fn list_contains(list: &[String], x: &str) -> (r: bool)
    ensures
        r == list.deep_view().contains(x@),
{
    let mut i: usize = 0;
    while i < list.len()
        invariant
            i <= list@.len(),
            forall|k: int| 0 <= k < i ==> #[trigger] list@[k]@ != x@,
        decreases list@.len() - i,
    {
        if crate::text::search::same(list[i].as_str(), x) {
            assert(list.deep_view()[i as int] == x@);
            return true;
        }
        i = i + 1;
    }
    assert forall|k: int| 0 <= k < list.deep_view().len() implies #[trigger] list.deep_view()[k]
        != x@ by {
        assert(list.deep_view()[k] == list@[k]@);
    }
    false
}

/// `s` with `x` put before the first text that it precedes.
pub open spec fn insert_sorted(s: Seq<Seq<char>>, x: Seq<char>) -> Seq<Seq<char>>
    decreases s.len(),
{
    if s.len() > 0 && precedes(x, s.last()) {
        insert_sorted(s.drop_last(), x).push(s.last())
    } else {
        s.push(x)
    }
}

/// The texts of `s` in order, as often as they stand there.
pub open spec fn sorted_texts(s: Seq<Seq<char>>) -> Seq<Seq<char>>
    decreases s.len(),
{
    if s.len() == 0 {
        Seq::empty()
    } else {
        insert_sorted(sorted_texts(s.drop_last()), s.last())
    }
}

/// Whether no text stands before an earlier one.
pub open spec fn in_order(s: Seq<Seq<char>>) -> bool {
    forall|i: int, j: int| 0 <= i < j < s.len() ==> !precedes(#[trigger] s[j], #[trigger] s[i])
}

/// Inserting keeps the order, and adds nothing but the text.
pub proof fn lemma_insert_sorted(s: Seq<Seq<char>>, x: Seq<char>)
    requires
        in_order(s),
    ensures
        in_order(insert_sorted(s, x)),
        insert_sorted(s, x).to_multiset() == s.to_multiset().insert(x),
        forall|k: int|
            0 <= k < insert_sorted(s, x).len() ==> s.contains(#[trigger] insert_sorted(s, x)[k])
                || insert_sorted(s, x)[k] == x,
    decreases s.len(),
{
    broadcast use vstd::seq_lib::group_to_multiset_ensures;

    let r = insert_sorted(s, x);
    if s.len() > 0 && precedes(x, s.last()) {
        let d = s.drop_last();
        let e = insert_sorted(d, x);
        assert(in_order(d));
        lemma_insert_sorted(d, x);
        assert(s =~= d.push(s.last()));
        assert forall|k: int| 0 <= k < r.len() implies s.contains(#[trigger] r[k]) || r[k] == x by {
            if k < e.len() {
                assert(r[k] == e[k]);
                if d.contains(e[k]) {
                    let m = choose|m: int| 0 <= m < d.len() && d[m] == e[k];
                    assert(s[m] == e[k]);
                }
            } else {
                assert(s[s.len() - 1] == r[k]);
            }
        }
        assert forall|i: int, j: int| 0 <= i < j < r.len() implies !precedes(
            #[trigger] r[j],
            #[trigger] r[i],
        ) by {
            if j == r.len() - 1 {
                assert(r[i] == e[i]);
                if e[i] == x {
                    if precedes(s.last(), x) {
                        lemma_precedes_transitive(x, s.last(), x);
                        lemma_precedes_irreflexive(x);
                    }
                } else {
                    let m = choose|m: int| 0 <= m < d.len() && d[m] == e[i];
                    assert(s[m] == e[i]);
                    assert(!precedes(s[s.len() - 1], s[m]));
                }
            } else {
                assert(r[i] == e[i] && r[j] == e[j]);
            }
        }
    } else {
        assert forall|k: int| 0 <= k < r.len() implies s.contains(#[trigger] r[k]) || r[k] == x by {
            if k < s.len() {
                assert(s[k] == r[k]);
            }
        }
        assert forall|i: int, j: int| 0 <= i < j < r.len() implies !precedes(
            #[trigger] r[j],
            #[trigger] r[i],
        ) by {
            if j == r.len() - 1 && i < s.len() - 1 {
                assert(!precedes(s[s.len() - 1], s[i]));
                if precedes(x, s[i]) {
                    lemma_precedes_total(s[i], s.last());
                    if s[i] == s.last() {
                    } else if precedes(s[i], s.last()) {
                        lemma_precedes_transitive(x, s[i], s.last());
                    }
                }
            }
        }
    }
}

/// `sorted_texts` is in order and holds the same texts, each as often.
pub proof fn law_sorting_keeps_every_text(s: Seq<Seq<char>>)
    ensures
        in_order(sorted_texts(s)),
        sorted_texts(s).to_multiset() == s.to_multiset(),
    decreases s.len(),
{
    broadcast use vstd::seq_lib::group_to_multiset_ensures;

    if s.len() > 0 {
        law_sorting_keeps_every_text(s.drop_last());
        lemma_insert_sorted(sorted_texts(s.drop_last()), s.last());
        assert(s =~= s.drop_last().push(s.last()));
    }
}

/// Two lists in order that hold the same texts, each as often, are the same.
proof fn lemma_in_order_unique(a: Seq<Seq<char>>, b: Seq<Seq<char>>)
    requires
        in_order(a),
        in_order(b),
        a.to_multiset() == b.to_multiset(),
    ensures
        a == b,
    decreases a.len(),
{
    broadcast use vstd::seq_lib::group_to_multiset_ensures;

    assert(a.to_multiset().len() == a.len() && b.to_multiset().len() == b.len());
    if a.len() == 0 {
        assert(a =~= b);
    } else {
        let n = a.len() - 1;
        let x = a[n];
        let y = b[n];
        assert(a.contains(x) && b.contains(y));
        assert(b.to_multiset().count(x) > 0 && a.to_multiset().count(y) > 0);
        assert(b.contains(x) && a.contains(y));
        let i = choose|i: int| 0 <= i < a.len() && a[i] == y;
        let j = choose|j: int| 0 <= j < b.len() && b[j] == x;
        lemma_precedes_irreflexive(x);
        lemma_precedes_irreflexive(y);
        assert(!precedes(x, y));
        assert(!precedes(y, x));
        lemma_precedes_total(x, y);
        let d = a.drop_last();
        let e = b.drop_last();
        assert forall|k: int, m: int| 0 <= k < m < d.len() implies !precedes(
            #[trigger] d[m],
            #[trigger] d[k],
        ) by {
            assert(!precedes(a[m], a[k]));
        }
        assert forall|k: int, m: int| 0 <= k < m < e.len() implies !precedes(
            #[trigger] e[m],
            #[trigger] e[k],
        ) by {
            assert(!precedes(b[m], b[k]));
        }
        assert(a.remove(n) =~= d);
        assert(b.remove(n) =~= e);
        assert(d.to_multiset() =~= a.to_multiset().remove(x));
        assert(e.to_multiset() =~= b.to_multiset().remove(y));
        lemma_in_order_unique(d, e);
        assert(a =~= d.push(x));
        assert(b =~= e.push(y));
    }
}

/// Texts in another order are sorted to the same list.
pub proof fn law_sorting_forgets_the_order(a: Seq<Seq<char>>, b: Seq<Seq<char>>)
    requires
        a.to_multiset() == b.to_multiset(),
    ensures
        sorted_texts(a) == sorted_texts(b),
{
    law_sorting_keeps_every_text(a);
    law_sorting_keeps_every_text(b);
    lemma_in_order_unique(sorted_texts(a), sorted_texts(b));
}

/// Puts `x` into the list in order.
fn insert_ordered(list: &mut Vec<String>, x: &str)
    ensures
        final(list).deep_view() == insert_sorted(old(list).deep_view(), x@),
{
    let ghost all = list.deep_view();
    let mut i: usize = list.len();
    assert(all.take(i as int) =~= all);
    assert(insert_sorted(all, x@) =~= insert_sorted(all.take(i as int), x@) + all.skip(i as int));
    while i > 0
        invariant_except_break
            insert_sorted(all, x@) == insert_sorted(all.take(i as int), x@) + all.skip(i as int),
        invariant
            i <= list@.len(),
            all == list.deep_view(),
            list@ == old(list)@,
        ensures
            insert_sorted(all, x@) == all.take(i as int).push(x@) + all.skip(i as int),
        decreases i,
    {
        proof {
            assert(all[i - 1] == list@[i - 1]@);
            assert(all.take(i as int).last() == all[i - 1]);
            assert(all.take(i as int).drop_last() =~= all.take(i - 1));
        }
        if !text_precedes(x, list[i - 1].as_str()) {
            break;
        }
        proof {
            let d = insert_sorted(all.take(i - 1), x@);
            assert(d.push(all[i - 1]) + all.skip(i as int) =~= d + all.skip(i - 1));
        }
        i = i - 1;
    }
    assert(all.take(i as int).push(x@) + all.skip(i as int) =~= all.insert(i as int, x@));
    list.insert(i, x.to_owned());
    assert(list.deep_view() =~= all.insert(i as int, x@));
}

/// The texts of `list` in order, as often as they stand there.
pub fn sort_texts(list: &[String]) -> (r: Vec<String>)
    ensures
        r.deep_view() == sorted_texts(list.deep_view()),
{
    let mut r: Vec<String> = Vec::new();
    let ghost all = list.deep_view();
    let mut i: usize = 0;
    assert(r.deep_view() =~= sorted_texts(all.take(0)));
    while i < list.len()
        invariant
            all == list.deep_view(),
            i <= list@.len(),
            r.deep_view() == sorted_texts(all.take(i as int)),
        decreases list@.len() - i,
    {
        insert_ordered(&mut r, list[i].as_str());
        proof {
            assert(all[i as int] == list@[i as int]@);
            assert(all.take(i + 1).drop_last() =~= all.take(i as int));
            assert(all.take(i + 1).last() == all[i as int]);
        }
        i = i + 1;
    }
    assert(all.take(i as int) =~= all);
    r
}

} // verus!
