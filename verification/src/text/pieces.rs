//! Trimming and cutting a text into pieces.

use vstd::prelude::*;

use crate::text::chars::{chars_of, is_white, string_of, white};
use crate::text::compose::join;
use crate::text::search::{ends_with, finishes, head};

verus! {

/// `s` without its leading white space.
pub open spec fn trim_start(s: Seq<char>) -> Seq<char>
    decreases s.len(),
{
    if s.len() > 0 && is_white(s[0]) {
        trim_start(s.skip(1))
    } else {
        s
    }
}

/// `s` without its trailing white space.
pub open spec fn trim_end(s: Seq<char>) -> Seq<char>
    decreases s.len(),
{
    if s.len() > 0 && is_white(s.last()) {
        trim_end(s.drop_last())
    } else {
        s
    }
}

/// `s` without the white space around it.
pub open spec fn trim(s: Seq<char>) -> Seq<char> {
    trim_end(trim_start(s))
}

/// `s` without the run of `c` that it begins with.
pub open spec fn trim_start_char(s: Seq<char>, c: char) -> Seq<char>
    decreases s.len(),
{
    if s.len() > 0 && s[0] == c {
        trim_start_char(s.skip(1), c)
    } else {
        s
    }
}

/// `s` without the run of `c` that it ends with.
pub open spec fn trim_end_char(s: Seq<char>, c: char) -> Seq<char>
    decreases s.len(),
{
    if s.len() > 0 && s.last() == c {
        trim_end_char(s.drop_last(), c)
    } else {
        s
    }
}

/// `s` without the copies of `end` that it ends with.
pub open spec fn trim_end_text(s: Seq<char>, end: Seq<char>) -> Seq<char>
    decreases s.len(),
{
    if end.len() > 0 && finishes(s, end) {
        trim_end_text(s.take(s.len() - end.len()), end)
    } else {
        s
    }
}

/// The pieces of `s` between the separators `sep`. There is one more piece
/// than there are separators.
pub open spec fn split(s: Seq<char>, sep: char) -> Seq<Seq<char>>
    decreases s.len(),
{
    if s.len() == 0 {
        seq![Seq::<char>::empty()]
    } else {
        let done = split(s.drop_last(), sep);
        if s.last() == sep {
            done.push(Seq::<char>::empty())
        } else {
            done.drop_last().push(done.last().push(s.last()))
        }
    }
}

/// The line without the carriage return that a line feed followed.
pub open spec fn without_cr(line: Seq<char>) -> Seq<char> {
    if line.len() > 0 && line.last() == '\r' {
        line.drop_last()
    } else {
        line
    }
}

/// The lines of `s`: each ends at a line feed, with or without a carriage
/// return before it, and the last one may lack its line feed.
pub open spec fn lines(s: Seq<char>) -> Seq<Seq<char>> {
    let parts = split(s, '\n');
    let ended = parts.drop_last().map_values(|l: Seq<char>| without_cr(l));
    if parts.last().len() == 0 {
        ended
    } else {
        ended.push(parts.last())
    }
}

/// The fields of `s` with the field still open at its end: the runs of
/// characters that are not white space, and the last run, which may be empty.
pub open spec fn open_fields(s: Seq<char>) -> (Seq<Seq<char>>, Seq<char>)
    decreases s.len(),
{
    if s.len() == 0 {
        (Seq::empty(), Seq::empty())
    } else {
        let (done, cur) = open_fields(s.drop_last());
        if !is_white(s.last()) {
            (done, cur.push(s.last()))
        } else if cur.len() > 0 {
            (done.push(cur), Seq::empty())
        } else {
            (done, cur)
        }
    }
}

/// The runs of characters in `s` that are not white space.
pub open spec fn fields(s: Seq<char>) -> Seq<Seq<char>> {
    let (done, cur) = open_fields(s);
    if cur.len() > 0 {
        done.push(cur)
    } else {
        done
    }
}

/// Whether `s` is one run of characters that are not white space.
pub open spec fn is_word(s: Seq<char>) -> bool {
    s.len() > 0 && forall|i: int| 0 <= i < s.len() ==> !is_white(#[trigger] s[i])
}

/// The finished fields are words, and the one still open has no white space.
proof fn lemma_open_fields(s: Seq<char>)
    ensures
        forall|i: int| 0 <= i < open_fields(s).0.len() ==> is_word(#[trigger] open_fields(s).0[i]),
        forall|i: int|
            0 <= i < open_fields(s).1.len() ==> !is_white(#[trigger] open_fields(s).1[i]),
    decreases s.len(),
{
    if s.len() > 0 {
        lemma_open_fields(s.drop_last());
        let (done, cur) = open_fields(s.drop_last());
        let (now, open) = open_fields(s);
        assert forall|i: int| 0 <= i < now.len() implies is_word(#[trigger] now[i]) by {
            if i < done.len() {
                assert(now[i] == done[i]);
            } else {
                assert(now[i] == cur);
            }
        }
        assert forall|i: int| 0 <= i < open.len() implies !is_white(#[trigger] open[i]) by {
            if i < cur.len() {
                assert(open[i] == cur[i]);
            }
        }
    }
}

/// Every field is a word.
pub proof fn lemma_fields_are_words(s: Seq<char>)
    ensures
        forall|i: int| 0 <= i < fields(s).len() ==> is_word(#[trigger] fields(s)[i]),
{
    lemma_open_fields(s);
    let (done, cur) = open_fields(s);
    assert forall|i: int| 0 <= i < fields(s).len() implies is_word(#[trigger] fields(s)[i]) by {
        if i < done.len() {
            assert(fields(s)[i] == done[i]);
        } else {
            assert(fields(s)[i] == cur);
        }
    }
}

/// What has no white space lengthens the field that is still open.
proof fn lemma_open_fields_run(s: Seq<char>, x: Seq<char>)
    requires
        forall|i: int| 0 <= i < x.len() ==> !is_white(#[trigger] x[i]),
    ensures
        open_fields(s + x) == (open_fields(s).0, open_fields(s).1 + x),
    decreases x.len(),
{
    if x.len() == 0 {
        assert(s + x =~= s);
        assert(open_fields(s).1 + x =~= open_fields(s).1);
    } else {
        let d = x.drop_last();
        assert forall|i: int| 0 <= i < d.len() implies !is_white(#[trigger] d[i]) by {
            assert(d[i] == x[i]);
        }
        lemma_open_fields_run(s, d);
        assert((s + x).drop_last() =~= s + d);
        assert(!is_white(x[x.len() - 1]));
        assert((open_fields(s).1 + d).push(x.last()) =~= open_fields(s).1 + x);
    }
}

/// Words joined by single spaces come apart into the same words.
pub proof fn lemma_fields_of_joined(words: Seq<Seq<char>>)
    requires
        forall|i: int| 0 <= i < words.len() ==> is_word(#[trigger] words[i]),
    ensures
        fields(join(words, " "@)) == words,
        words.len() > 0 ==> open_fields(join(words, " "@)) == (words.drop_last(), words.last()),
    decreases words.len(),
{
    reveal_strlit(" ");
    if words.len() == 0 {
        assert(words =~= Seq::<Seq<char>>::empty());
    } else {
        let d = words.drop_last();
        let x = words[words.len() - 1];
        assert(is_word(x));
        assert forall|i: int| 0 <= i < d.len() implies is_word(#[trigger] d[i]) by {
            assert(d[i] == words[i]);
        }
        lemma_fields_of_joined(d);
        if words.len() == 1 {
            lemma_open_fields_run(Seq::empty(), x);
            assert(Seq::<char>::empty() + x =~= x);
            assert(join(words, " "@) == x);
            assert(words.drop_last() =~= Seq::<Seq<char>>::empty());
        } else {
            let s = join(d, " "@);
            assert((s + " "@).drop_last() =~= s);
            assert(is_word(d[d.len() - 1]));
            assert(d.drop_last().push(d.last()) =~= d);
            assert(open_fields(s + " "@) == (d, Seq::<char>::empty()));
            lemma_open_fields_run(s + " "@, x);
            assert(Seq::<char>::empty() + x =~= x);
        }
        assert(d.push(x) =~= words);
    }
}

/// `trim_start` drops whole leading characters.
proof fn lemma_trim_start_step(s: Seq<char>, i: int)
    requires
        0 <= i < s.len(),
        is_white(s[i]),
    ensures
        trim_start(s.skip(i)) == trim_start(s.skip(i + 1)),
{
    assert(s.skip(i)[0] == s[i]);
    assert(s.skip(i).skip(1) =~= s.skip(i + 1));
}

/// `s` without its leading white space.
pub fn trimmed_start(s: &str) -> (r: String)
    ensures
        r@ == trim_start(s@),
{
    let a: Vec<char> = chars_of(s);
    let n: usize = a.len();
    let mut i: usize = 0;
    assert(s@.skip(0) =~= s@);
    while i < n && white(a[i])
        invariant
            a@ == s@,
            n == a@.len(),
            i <= n,
            trim_start(s@) == trim_start(s@.skip(i as int)),
        decreases n - i,
    {
        proof {
            lemma_trim_start_step(s@, i as int);
        }
        i = i + 1;
    }
    proof {
        if i < n {
            assert(s@.skip(i as int)[0] == s@[i as int]);
        }
        assert(a@.subrange(i as int, n as int) =~= s@.skip(i as int));
    }
    string_of(&a, i, n)
}

/// `s` without its trailing white space.
pub fn trimmed_end(s: &str) -> (r: String)
    ensures
        r@ == trim_end(s@),
{
    let a: Vec<char> = chars_of(s);
    let mut n: usize = a.len();
    assert(s@.take(n as int) =~= s@);
    while n > 0 && white(a[n - 1])
        invariant
            a@ == s@,
            n <= a@.len(),
            trim_end(s@) == trim_end(s@.take(n as int)),
        decreases n,
    {
        proof {
            assert(s@.take(n as int).last() == s@[n - 1]);
            assert(s@.take(n as int).drop_last() =~= s@.take(n - 1));
        }
        n = n - 1;
    }
    proof {
        if n > 0 {
            assert(s@.take(n as int).last() == s@[n - 1]);
        }
        assert(a@.subrange(0, n as int) =~= s@.take(n as int));
    }
    string_of(&a, 0, n)
}

/// `s` without the white space around it.
pub fn trimmed(s: &str) -> (r: String)
    ensures
        r@ == trim(s@),
{
    let t: String = trimmed_start(s);
    trimmed_end(t.as_str())
}

/// `s` without the run of `c` that it begins with.
pub fn trimmed_start_char(s: &str, c: char) -> (r: String)
    ensures
        r@ == trim_start_char(s@, c),
{
    let a: Vec<char> = chars_of(s);
    let n: usize = a.len();
    let mut i: usize = 0;
    assert(s@.skip(0) =~= s@);
    while i < n && a[i] == c
        invariant
            a@ == s@,
            n == a@.len(),
            i <= n,
            trim_start_char(s@, c) == trim_start_char(s@.skip(i as int), c),
        decreases n - i,
    {
        proof {
            assert(s@.skip(i as int)[0] == s@[i as int]);
            assert(s@.skip(i as int).skip(1) =~= s@.skip(i + 1));
        }
        i = i + 1;
    }
    proof {
        if i < n {
            assert(s@.skip(i as int)[0] == s@[i as int]);
        }
        assert(a@.subrange(i as int, n as int) =~= s@.skip(i as int));
    }
    string_of(&a, i, n)
}

/// `s` without the run of `c` that it ends with.
pub fn trimmed_end_char(s: &str, c: char) -> (r: String)
    ensures
        r@ == trim_end_char(s@, c),
{
    let a: Vec<char> = chars_of(s);
    let n: usize = a.len();
    let mut i: usize = n;
    assert(s@.take(n as int) =~= s@);
    while i > 0 && a[i - 1] == c
        invariant
            a@ == s@,
            n == a@.len(),
            i <= n,
            trim_end_char(s@, c) == trim_end_char(s@.take(i as int), c),
        decreases i,
    {
        assert(s@.take(i as int).drop_last() =~= s@.take(i - 1));
        i = i - 1;
    }
    assert(s@.subrange(0, i as int) =~= s@.take(i as int));
    string_of(&a, 0, i)
}

/// `s` without the copies of `end` that it ends with.
pub fn trimmed_end_text(s: &str, end: &str) -> (r: String)
    ensures
        r@ == trim_end_text(s@, end@),
{
    let mut r: String = s.to_owned();
    let m: usize = end.unicode_len();
    if m == 0 {
        return r;
    }
    while ends_with(r.as_str(), end)
        invariant
            m == end@.len(),
            m > 0,
            trim_end_text(s@, end@) == trim_end_text(r@, end@),
        decreases r@.len(),
    {
        let n: usize = r.as_str().unicode_len();
        let shorter: String = head(r.as_str(), n - m);
        r = shorter;
    }
    r
}

/// There is always a last piece.
pub proof fn lemma_split_nonempty(s: Seq<char>, sep: char)
    ensures
        split(s, sep).len() > 0,
    decreases s.len(),
{
    if s.len() > 0 {
        lemma_split_nonempty(s.drop_last(), sep);
    }
}

/// Characters that are no separator go to the last piece.
pub proof fn lemma_split_tail(a: Seq<char>, x: Seq<char>, sep: char)
    requires
        !x.contains(sep),
    ensures
        split(a + x, sep) == split(a, sep).drop_last().push(split(a, sep).last() + x),
    decreases x.len(),
{
    lemma_split_nonempty(a, sep);
    let parts = split(a, sep);
    if x.len() == 0 {
        assert(a + x =~= a);
        assert(parts.last() + x =~= parts.last());
        assert(parts.drop_last().push(parts.last()) =~= parts);
    } else {
        let d = x.drop_last();
        assert(!d.contains(sep)) by {
            if d.contains(sep) {
                let i = choose|i: int| 0 <= i < d.len() && d[i] == sep;
                assert(x[i] == sep);
            }
        }
        lemma_split_tail(a, d, sep);
        assert((a + x).drop_last() =~= a + d);
        assert((a + x).last() == x.last());
        assert(x[x.len() - 1] != sep);
        let before = parts.drop_last().push(parts.last() + d);
        assert(before.drop_last() =~= parts.drop_last());
        assert((parts.last() + d).push(x.last()) =~= parts.last() + x);
    }
}

/// No piece holds the separator.
pub proof fn lemma_pieces_hold_no_separator(s: Seq<char>, sep: char)
    ensures
        forall|i: int| 0 <= i < split(s, sep).len() ==> !(#[trigger] split(s, sep)[i]).contains(sep),
    decreases s.len(),
{
    if s.len() > 0 {
        let done = split(s.drop_last(), sep);
        lemma_pieces_hold_no_separator(s.drop_last(), sep);
        lemma_split_nonempty(s.drop_last(), sep);
        assert forall|i: int| 0 <= i < split(s, sep).len() implies !(#[trigger] split(
            s,
            sep,
        )[i]).contains(sep) by {
            let piece = split(s, sep)[i];
            if s.last() != sep && i == done.len() - 1 {
                assert(piece == done.last().push(s.last()));
                if piece.contains(sep) {
                    let k = choose|k: int| 0 <= k < piece.len() && piece[k] == sep;
                    assert(done.last()[k] == sep);
                    assert(done[done.len() - 1].contains(sep));
                }
            } else if i < done.len() {
                assert(piece == done[i]);
            }
        }
    }
}

/// What white space leaves at the start is a rest of the text, and begins with
/// none.
pub proof fn lemma_trim_start(s: Seq<char>)
    ensures
        trim_start(s).len() <= s.len(),
        trim_start(s) == s.skip(s.len() - trim_start(s).len()),
        trim_start(s).len() > 0 ==> !is_white(trim_start(s)[0]),
    decreases s.len(),
{
    if s.len() > 0 && is_white(s[0]) {
        let rest = s.skip(1);
        lemma_trim_start(rest);
        assert(rest.skip(rest.len() - trim_start(rest).len()) =~= s.skip(
            s.len() - trim_start(s).len(),
        ));
    } else {
        assert(s.skip(0) =~= s);
    }
}

/// What white space leaves at the end is a beginning of the text, and ends with
/// none.
pub proof fn lemma_trim_end(s: Seq<char>)
    ensures
        trim_end(s).len() <= s.len(),
        trim_end(s) == s.take(trim_end(s).len() as int),
        trim_end(s).len() > 0 ==> !is_white(trim_end(s).last()),
    decreases s.len(),
{
    if s.len() > 0 && is_white(s.last()) {
        let rest = s.drop_last();
        lemma_trim_end(rest);
        assert(rest.take(trim_end(rest).len() as int) =~= s.take(trim_end(s).len() as int));
    } else {
        assert(s.take(s.len() as int) =~= s);
    }
}

/// A trimmed text is a part of the text, and trimming it again changes nothing.
pub proof fn lemma_trim(s: Seq<char>)
    ensures
        trim(trim(s)) == trim(s),
        forall|c: char| trim(s).contains(c) ==> s.contains(c),
{
    let a = trim_start(s);
    let t = trim_end(a);
    lemma_trim_start(s);
    lemma_trim_end(a);
    if t.len() > 0 {
        assert(t[0] == a[0]);
    }
    assert forall|c: char| t.contains(c) implies s.contains(c) by {
        let k = choose|k: int| 0 <= k < t.len() && t[k] == c;
        assert(a[k] == c);
        assert(s[s.len() - a.len() + k] == c);
    }
}

/// The pieces of `s` between the separators `sep`.
pub fn split_at(s: &str, sep: char) -> (r: Vec<String>)
    ensures
        r.deep_view() == split(s@, sep),
        r@.len() > 0,
{
    let a: Vec<char> = chars_of(s);
    let mut r: Vec<String> = Vec::new();
    let mut cur: String = String::new();
    let mut i: usize = 0;
    assert(r.deep_view().push(cur@) =~= split(s@.take(0), sep));
    while i < a.len()
        invariant
            a@ == s@,
            i <= a@.len(),
            split(s@.take(i as int), sep) == r.deep_view().push(cur@),
        decreases a@.len() - i,
    {
        let c: char = a[i];
        proof {
            assert(s@.take(i + 1).drop_last() =~= s@.take(i as int));
            assert(s@.take(i + 1).last() == c);
            let done = r.deep_view().push(cur@);
            assert(done.drop_last() =~= r.deep_view());
        }
        if c == sep {
            let ghost before = r.deep_view();
            r.push(cur);
            assert(r.deep_view() =~= before.push(cur@));
            cur = String::new();
        } else {
            cur.push(c);
        }
        i = i + 1;
    }
    assert(s@.take(i as int) =~= s@);
    let ghost before = r.deep_view();
    r.push(cur);
    assert(r.deep_view() =~= before.push(cur@));
    r
}

/// `line` without a trailing carriage return.
fn drop_cr(line: &str) -> (r: String)
    ensures
        r@ == without_cr(line@),
{
    let a: Vec<char> = chars_of(line);
    let n: usize = a.len();
    assert(line@.subrange(0, n as int) =~= line@);
    if n > 0 && a[n - 1] == '\r' {
        assert(line@.subrange(0, n - 1) =~= line@.drop_last());
        string_of(&a, 0, n - 1)
    } else {
        string_of(&a, 0, n)
    }
}

/// The lines of `s`.
pub fn lines_of(s: &str) -> (r: Vec<String>)
    ensures
        r.deep_view() == lines(s@),
{
    let parts: Vec<String> = split_at(s, '\n');
    let n: usize = parts.len();
    let mut r: Vec<String> = Vec::new();
    let mut i: usize = 0;
    while i < n - 1
        invariant
            parts.deep_view() == split(s@, '\n'),
            n == parts@.len(),
            n > 0,
            i <= n - 1,
            r@.len() == i,
            forall|k: int|
                0 <= k < i ==> #[trigger] r@[k]@ == without_cr(split(s@, '\n')[k]),
        decreases n - i,
    {
        assert(parts.deep_view()[i as int] == parts@[i as int]@);
        r.push(drop_cr(parts[i].as_str()));
        i = i + 1;
    }
    let ghost ended = split(s@, '\n').drop_last().map_values(|l: Seq<char>| without_cr(l));
    assert(r.deep_view() =~= ended);
    assert(parts.deep_view().last() == parts@[n - 1]@);
    if !parts[n - 1].as_str().is_empty() {
        r.push(parts[n - 1].clone());
        assert(r.deep_view() =~= ended.push(parts@[n - 1]@));
    }
    r
}

/// The runs of characters in `s` that are not white space.
pub fn fields_of(s: &str) -> (r: Vec<String>)
    ensures
        r.deep_view() == fields(s@),
{
    let a: Vec<char> = chars_of(s);
    let mut r: Vec<String> = Vec::new();
    let mut cur: String = String::new();
    let mut i: usize = 0;
    assert(r.deep_view() =~= Seq::<Seq<char>>::empty());
    assert(s@.take(0) =~= Seq::<char>::empty());
    while i < a.len()
        invariant
            a@ == s@,
            i <= a@.len(),
            open_fields(s@.take(i as int)) == (r.deep_view(), cur@),
        decreases a@.len() - i,
    {
        let c: char = a[i];
        proof {
            assert(s@.take(i + 1).drop_last() =~= s@.take(i as int));
            assert(s@.take(i + 1).last() == c);
        }
        if !white(c) {
            cur.push(c);
        } else if !cur.as_str().is_empty() {
            let ghost before = r.deep_view();
            r.push(cur);
            assert(r.deep_view() =~= before.push(cur@));
            cur = String::new();
        }
        i = i + 1;
    }
    assert(s@.take(i as int) =~= s@);
    if !cur.as_str().is_empty() {
        let ghost before = r.deep_view();
        r.push(cur);
        assert(r.deep_view() =~= before.push(cur@));
    }
    r
}

/// A piece that holds no separator, and the separator behind it, come before
/// the pieces of the rest.
pub proof fn lemma_split_first(x: Seq<char>, rest: Seq<char>, sep: char)
    requires
        !x.contains(sep),
    ensures
        split(x + seq![sep] + rest, sep) == seq![x] + split(rest, sep),
        split(x, sep) == seq![x],
    decreases rest.len(),
{
    let none = Seq::<char>::empty();
    lemma_split_tail(none, x, sep);
    assert(none + x =~= x);
    assert(split(none, sep) == seq![none]);
    assert(split(none, sep).drop_last().push(none + x) =~= seq![x]);
    let s = x + seq![sep] + rest;
    if rest.len() == 0 {
        assert(s =~= x + seq![sep]);
        assert(s.drop_last() =~= x);
        assert(split(s, sep) =~= seq![x] + split(rest, sep));
    } else {
        let d = rest.drop_last();
        lemma_split_first(x, d, sep);
        lemma_split_nonempty(d, sep);
        assert(s.drop_last() =~= x + seq![sep] + d);
        let done = split(d, sep);
        assert((seq![x] + done).drop_last() =~= seq![x] + done.drop_last());
        assert((seq![x] + done).last() == done.last());
        assert(split(s, sep) =~= seq![x] + split(rest, sep));
    }
}

/// A line with its line feed comes before the lines of the rest.
pub proof fn lemma_lines_first(l: Seq<char>, rest: Seq<char>)
    requires
        !l.contains('\n'),
    ensures
        lines(l + "\n"@ + rest) == seq![without_cr(l)] + lines(rest),
{
    reveal_strlit("\n");
    let s = l + "\n"@ + rest;
    assert(s =~= l + seq!['\n'] + rest);
    lemma_split_first(l, rest, '\n');
    lemma_split_nonempty(rest, '\n');
    let parts = split(rest, '\n');
    let all = seq![l] + parts;
    assert(all.drop_last() =~= seq![l] + parts.drop_last());
    assert(all.last() == parts.last());
    let f = |l: Seq<char>| without_cr(l);
    assert(all.drop_last().map_values(f) =~= seq![without_cr(l)] + parts.drop_last().map_values(f));
    assert(lines(s) =~= seq![without_cr(l)] + lines(rest));
}

/// The text that has the lines, each with its line feed.
pub open spec fn text_of(ls: Seq<Seq<char>>) -> Seq<char>
    decreases ls.len(),
{
    if ls.len() == 0 {
        Seq::empty()
    } else {
        ls[0] + "\n"@ + text_of(ls.skip(1))
    }
}

/// A text made of lines comes apart into them.
pub proof fn law_lines_are_read_back(ls: Seq<Seq<char>>)
    requires
        forall|i: int|
            0 <= i < ls.len() ==> !(#[trigger] ls[i]).contains('\n') && (ls[i].len() == 0
                || ls[i].last() != '\r'),
    ensures
        lines(text_of(ls)) == ls,
    decreases ls.len(),
{
    if ls.len() == 0 {
        let none = Seq::<char>::empty();
        assert(split(none, '\n') == seq![none]);
        assert(lines(none) =~= ls);
    } else {
        let rest = ls.skip(1);
        assert forall|i: int| 0 <= i < rest.len() implies !(#[trigger] rest[i]).contains('\n') && (
        rest[i].len() == 0 || rest[i].last() != '\r') by {
            assert(rest[i] == ls[i + 1]);
        }
        law_lines_are_read_back(rest);
        lemma_lines_first(ls[0], text_of(rest));
        assert(without_cr(ls[0]) == ls[0]);
        assert(seq![ls[0]] + rest =~= ls);
    }
}

/// What neither begins nor ends with white space is as it is trimmed.
pub proof fn lemma_trimmed_is_kept(s: Seq<char>)
    requires
        s.len() == 0 || !is_white(s[0]) && !is_white(s.last()),
    ensures
        trim(s) == s,
{
    assert(trim_start(s) == s);
}

/// White space around a text makes no difference to what is left of it.
pub proof fn lemma_trim_around(a: Seq<char>, s: Seq<char>, b: Seq<char>)
    requires
        forall|i: int| 0 <= i < a.len() ==> is_white(#[trigger] a[i]),
        forall|i: int| 0 <= i < b.len() ==> is_white(#[trigger] b[i]),
        s.len() > 0,
        !is_white(s[0]),
        !is_white(s.last()),
    ensures
        trim(a + s + b) == s,
    decreases a.len() + b.len(),
{
    let t = a + s + b;
    if a.len() > 0 {
        assert(t[0] == a[0]);
        assert(t.skip(1) =~= a.skip(1) + s + b);
        assert forall|i: int| 0 <= i < a.skip(1).len() implies is_white(#[trigger] a.skip(1)[i]) by {
            assert(a.skip(1)[i] == a[i + 1]);
        }
        lemma_trim_around(a.skip(1), s, b);
    } else if b.len() > 0 {
        assert(t =~= s + b);
        assert(t[0] == s[0]);
        assert(trim_start(t) == t);
        assert(t.last() == b.last());
        assert(is_white(b[b.len() - 1]));
        assert(t.drop_last() =~= a + s + b.drop_last());
        assert(t.drop_last()[0] == s[0]);
        assert forall|i: int| 0 <= i < b.drop_last().len() implies is_white(
            #[trigger] b.drop_last()[i],
        ) by {
            assert(b.drop_last()[i] == b[i]);
        }
        lemma_trim_around(a, s, b.drop_last());
        assert(trim_start(t.drop_last()) == t.drop_last());
    } else {
        assert(t =~= s);
        lemma_trimmed_is_kept(s);
    }
}

} // verus!
