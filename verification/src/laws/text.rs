//! Laws of the pieces that texts are taken apart into, and of numbers in them.

use vstd::prelude::*;

use crate::text::chars::{is_digit, is_white, lower_char};
use crate::text::compose::{join, pad_right, replace_char};
use crate::text::numbers::{decimal, digits_value, lemma_decimal_value, parse_number, without_plus};
use crate::text::order::precedes;
use crate::text::paths::{base_name, join_path};
use crate::text::pieces::{
    fields, is_word, lemma_lines_first, lemma_split_first, lemma_split_nonempty, lemma_trim_end,
    lemma_trim_start, lines, open_fields, split, trim, trim_end, trim_start, without_cr,
};
use crate::text::search::{last_index, lemma_last_index, lower};

verus! {

/// Of the ASCII characters the space, the tab, the ends of lines and the feeds
/// are white space.
pub proof fn law_white_space(c: char)
    ensures
        (c as u32) < 128 ==> (is_white(c) <==> c == ' ' || c == '\t' || c == '\n' || c == '\r' || c
            == '\x0b' || c == '\x0c'),
        is_white('\u{85}') && is_white('\u{a0}') && is_white('\u{1680}') && is_white('\u{2028}')
            && is_white('\u{2029}') && is_white('\u{202f}') && is_white('\u{205f}') && is_white(
            '\u{3000}',
        ),
        '\u{2000}' <= c <= '\u{200a}' ==> is_white(c),
        c > '\u{3000}' ==> !is_white(c),
{
}

/// A capital becomes its small letter, and every other character stays.
pub proof fn law_small_letters(c: char)
    ensures
        'A' <= c <= 'Z' ==> 'a' <= lower_char(c) <= 'z' && lower_char(c) as u32 == c as u32 + 32,
        !('A' <= c <= 'Z') ==> lower_char(c) == c,
        lower_char(lower_char(c)) == lower_char(c),
{
}

/// A text in small letters stays, and what two texts come to, their sum comes to.
pub proof fn law_lower_texts(a: Seq<char>, b: Seq<char>)
    ensures
        lower(a + b) == lower(a) + lower(b),
        lower(a).len() == a.len(),
        lower(lower(a)) == lower(a),
{
    assert(lower(a + b) =~= lower(a) + lower(b));
    assert forall|i: int| 0 <= i < a.len() implies lower_char(#[trigger] lower(a)[i]) == lower(
        a,
    )[i] by {
        law_small_letters(a[i]);
    }
    assert(lower(lower(a)) =~= lower(a));
}

/// A number is read back from its digits, with a plus sign before them or none
/// and with zeros before them, where it is no more than the greatest.
pub proof fn law_numbers_are_read_back(n: nat, max: nat)
    ensures
        parse_number(decimal(n), max) == (if n <= max {
            Some(n)
        } else {
            None
        }),
        parse_number(seq!['+'] + decimal(n), max) == parse_number(decimal(n), max),
        parse_number(seq!['0'] + decimal(n), max) == parse_number(decimal(n), max),
{
    let d = decimal(n);
    lemma_decimal_value(n);
    assert(is_digit(d[0]));
    assert((seq!['+'] + d).skip(1) =~= d);
    lemma_leading_zero(d);
    let z = seq!['0'] + d;
    assert(without_plus(z) == z);
    assert forall|i: int| 0 <= i < z.len() implies is_digit(#[trigger] z[i]) by {
        if i > 0 {
            assert(z[i] == d[i - 1]);
        }
    }
}

proof fn lemma_leading_zero(d: Seq<char>)
    ensures
        digits_value(seq!['0'] + d) == digits_value(d),
    decreases d.len(),
{
    let z = seq!['0'] + d;
    if d.len() == 0 {
        assert(z.drop_last() =~= d);
    } else {
        assert(z.drop_last() =~= seq!['0'] + d.drop_last());
        lemma_leading_zero(d.drop_last());
    }
}

/// What holds anything but digits, behind at most one plus sign, is no number;
/// nor is the empty text.
pub proof fn law_what_is_no_number(s: Seq<char>, max: nat, i: int)
    requires
        s.len() == 0 || 0 <= i < s.len() && !('0' <= s[i] <= '9') && (i > 0 || s[i] != '+' || s.len()
            == 1),
    ensures
        parse_number(s, max) is None,
{
    if s.len() > 0 {
        let d = without_plus(s);
        if s[0] == '+' && i > 0 {
            assert(d[i - 1] == s[i]);
        }
    }
}

/// What trimming takes away is white space, and what it leaves neither begins nor
/// ends with it.
pub proof fn law_trimming(s: Seq<char>)
    ensures
        exists|a: Seq<char>, b: Seq<char>| #[trigger] is_around(s, a, b),
        trim(s).len() > 0 ==> !is_white(trim(s)[0]) && !is_white(trim(s).last()),
{
    lemma_trim_start(s);
    let t = trim_start(s);
    lemma_trim_end(t);
    lemma_start_is_white(s);
    lemma_end_is_white(t);
    let a = s.take(s.len() - t.len());
    let b = t.skip(trim(s).len() as int);
    assert(s =~= a + trim(s) + b);
    if trim(s).len() > 0 {
        assert(trim(s)[0] == t[0]);
    }
    assert(is_around(s, a, b));
}

/// Whether the text is what is left of it with the two around it, which are white
/// space.
pub open spec fn is_around(s: Seq<char>, a: Seq<char>, b: Seq<char>) -> bool {
    &&& s == a + trim(s) + b
    &&& forall|i: int| 0 <= i < a.len() ==> is_white(#[trigger] a[i])
    &&& forall|i: int| 0 <= i < b.len() ==> is_white(#[trigger] b[i])
}

proof fn lemma_start_is_white(s: Seq<char>)
    ensures
        forall|i: int| 0 <= i < s.len() - trim_start(s).len() ==> is_white(#[trigger] s[i]),
    decreases s.len(),
{
    if s.len() > 0 && is_white(s[0]) {
        let d = s.skip(1);
        lemma_start_is_white(d);
        assert forall|i: int| 0 <= i < s.len() - trim_start(s).len() implies is_white(
            #[trigger] s[i],
        ) by {
            if i > 0 {
                assert(d[i - 1] == s[i]);
            }
        }
    }
}

proof fn lemma_end_is_white(s: Seq<char>)
    ensures
        forall|i: int| trim_end(s).len() <= i < s.len() ==> is_white(#[trigger] s[i]),
    decreases s.len(),
{
    if s.len() > 0 && is_white(s.last()) {
        let d = s.drop_last();
        lemma_end_is_white(d);
        assert forall|i: int| trim_end(s).len() <= i < s.len() implies is_white(
            #[trigger] s[i],
        ) by {
            if i < d.len() {
                assert(d[i] == s[i]);
            }
        }
    }
}

/// A text is split at the first separator into what comes before it and the
/// pieces of the rest; one without a separator is its only piece.
pub proof fn law_pieces(x: Seq<char>, rest: Seq<char>, sep: char)
    requires
        !x.contains(sep),
    ensures
        split(x + seq![sep] + rest, sep) == seq![x] + split(rest, sep),
        split(x, sep) == seq![x],
{
    lemma_split_first(x, rest, sep);
}

/// The pieces with the separator between them are the text again.
pub proof fn law_pieces_make_the_text(s: Seq<char>, sep: char)
    ensures
        join(split(s, sep), seq![sep]) == s,
    decreases s.len(),
{
    if s.len() == 0 {
        assert(join(split(s, sep), seq![sep]) =~= s);
    } else {
        let d = s.drop_last();
        let done = split(d, sep);
        law_pieces_make_the_text(d, sep);
        lemma_split_nonempty(d, sep);
        if s.last() == sep {
            let all = done.push(Seq::<char>::empty());
            assert(all.drop_last() =~= done);
            assert(join(all, seq![sep]) =~= s);
        } else {
            let x = done.last().push(s.last());
            let all = done.drop_last().push(x);
            assert(all.drop_last() =~= done.drop_last());
            if done.len() == 1 {
                assert(join(all, seq![sep]) == x);
                assert(join(done, seq![sep]) == done[0]);
                assert(x =~= s);
            } else {
                let head = join(done.drop_last(), seq![sep]) + seq![sep];
                assert(join(done, seq![sep]) == head + done.last());
                assert(join(all, seq![sep]) == head + x);
                assert(head + x =~= (head + done.last()).push(s.last()));
                assert(d.push(s.last()) =~= s);
            }
        }
    }
}

/// A line ends at its line feed, or at the carriage return before that; the last
/// may have neither.
pub proof fn law_lines(l: Seq<char>, rest: Seq<char>)
    requires
        !l.contains('\n'),
        l.len() > 0,
        l.last() != '\r',
    ensures
        lines(l + "\n"@ + rest) == seq![l] + lines(rest),
        lines(l + "\r\n"@ + rest) == seq![l] + lines(rest),
        lines("\n"@ + rest) == seq![Seq::<char>::empty()] + lines(rest),
        lines(l) == seq![l],
        lines(Seq::empty()).len() == 0,
{
    reveal_strlit("\n");
    reveal_strlit("\r\n");
    lemma_lines_first(l, rest);
    let r = l.push('\r');
    if r.contains('\n') {
        let i = choose|i: int| 0 <= i < r.len() && r[i] == '\n';
        assert(l[i] == '\n');
    }
    lemma_lines_first(r, rest);
    assert(r + "\n"@ + rest =~= l + "\r\n"@ + rest);
    assert(without_cr(r) =~= l);
    let none = Seq::<char>::empty();
    lemma_lines_first(none, rest);
    assert(none + "\n"@ + rest =~= "\n"@ + rest);
    lemma_split_first(l, none, '\n');
    assert(lines(l) =~= seq![l]);
    assert(split(none, '\n') == seq![none]);
    assert(lines(none) =~= Seq::<Seq<char>>::empty());
}

/// The words of two texts with white space between them are those of the one and
/// of the other, and a word is its own only one.
pub proof fn law_words(a: Seq<char>, w: char, b: Seq<char>)
    requires
        is_white(w),
    ensures
        fields(a + seq![w] + b) == fields(a) + fields(b),
        is_word(a) ==> fields(a) == seq![a],
        fields(Seq::empty()).len() == 0,
{
    lemma_open(a, w, b);
    let (x, y) = open_fields(b);
    assert(fields(a + seq![w] + b) =~= fields(a) + fields(b));
    if is_word(a) {
        lemma_open_word(a);
        assert(fields(a) =~= seq![a]);
    }
}

proof fn lemma_open(a: Seq<char>, w: char, b: Seq<char>)
    requires
        is_white(w),
    ensures
        open_fields(a + seq![w] + b) == (fields(a) + open_fields(b).0, open_fields(b).1),
    decreases b.len(),
{
    let s = a + seq![w] + b;
    if b.len() == 0 {
        assert(s.drop_last() =~= a);
        assert(s.last() == w);
        assert(fields(a) + open_fields(b).0 =~= fields(a));
    } else {
        let d = b.drop_last();
        assert(s.drop_last() =~= a + seq![w] + d);
        assert(s.last() == b.last());
        lemma_open(a, w, d);
        assert(open_fields(s).0 =~= fields(a) + open_fields(b).0);
    }
}

proof fn lemma_open_word(a: Seq<char>)
    requires
        forall|i: int| 0 <= i < a.len() ==> !is_white(#[trigger] a[i]),
    ensures
        open_fields(a) == (Seq::<Seq<char>>::empty(), a),
    decreases a.len(),
{
    if a.len() > 0 {
        let d = a.drop_last();
        assert forall|i: int| 0 <= i < d.len() implies !is_white(#[trigger] d[i]) by {
            assert(d[i] == a[i]);
        }
        lemma_open_word(d);
        assert(a[a.len() - 1] == a.last());
        assert(d.push(a.last()) =~= a);
    } else {
        assert(a =~= Seq::<char>::empty());
    }
}

/// Texts are joined with the separator between each two, and nowhere else.
pub proof fn law_joined_texts(parts: Seq<Seq<char>>, x: Seq<char>, sep: Seq<char>)
    ensures
        join(seq![x], sep) == x,
        parts.len() > 0 ==> join(parts.push(x), sep) == join(parts, sep) + sep + x,
        join(Seq::empty(), sep).len() == 0,
{
    if parts.len() > 0 {
        assert(parts.push(x).drop_last() =~= parts);
    }
}

/// A text is padded with spaces behind it up to the width, and stays where it is
/// as long.
pub proof fn law_padding(s: Seq<char>, w: int, i: int)
    ensures
        pad_right(s, w).len() == if w > s.len() {
            w
        } else {
            s.len() as int
        },
        pad_right(s, w).take(s.len() as int) == s,
        s.len() <= i < w ==> pad_right(s, w)[i] == ' ',
{
    assert(pad_right(s, w).take(s.len() as int) =~= s);
}

/// A character is replaced wherever it stands, and nothing else is.
pub proof fn law_replacing(a: Seq<char>, b: Seq<char>, c: char, with: Seq<char>)
    requires
        !a.contains(c),
    ensures
        replace_char(a, c, with) == a,
        replace_char(a + seq![c] + b, c, with) == a + with + replace_char(b, c, with),
    decreases a.len() + b.len(),
{
    let s = a + seq![c] + b;
    if b.len() > 0 {
        let d = b.drop_last();
        law_replacing(a, d, c, with);
        assert(s.drop_last() =~= a + seq![c] + d);
        assert(s.last() == b.last());
        assert(replace_char(s, c, with) =~= a + with + replace_char(b, c, with));
    } else {
        if a.len() > 0 {
            let d = a.drop_last();
            if d.contains(c) {
                let i = choose|i: int| 0 <= i < d.len() && d[i] == c;
                assert(a[i] == c);
            }
            assert(a[a.len() - 1] == a.last());
            law_replacing(d, b, c, with);
            assert(replace_char(a, c, with) =~= a);
        } else {
            assert(replace_char(a, c, with) =~= a);
        }
        assert(s.drop_last() =~= a);
        assert(replace_char(s, c, with) =~= a + with + replace_char(b, c, with));
    }
}

/// A relative path goes below the base, with one slash between them; an absolute
/// one takes its place.
pub proof fn law_joined_paths(base: Seq<char>, rel: Seq<char>)
    ensures
        rel.len() > 0 && rel[0] == '/' ==> join_path(base, rel) == rel,
        (rel.len() == 0 || rel[0] != '/') && base.len() > 0 && base.last() != '/' ==> join_path(
            base,
            rel,
        ) == base + seq!['/'] + rel,
        (rel.len() == 0 || rel[0] != '/') && base.len() > 0 && base.last() == '/' ==> join_path(
            base,
            rel,
        ) == base + rel,
{
    reveal_strlit("/");
    assert("/"@ =~= seq!['/']);
}

/// The name of a file is what stands behind the last slash of its path.
pub proof fn law_name_of_a_path(dir: Seq<char>, name: Seq<char>)
    requires
        !name.contains('/'),
    ensures
        base_name(dir + seq!['/'] + name) == name,
        base_name(name) == name,
{
    let p = dir + seq!['/'] + name;
    let n = dir.len() as int;
    assert(p[n] == '/');
    assert forall|k: int| 0 <= k < name.len() implies #[trigger] name[k] != '/' by {
        assert(name.contains(name[k]));
    }
    assert forall|k: int| n < k < p.len() implies p[k] != '/' by {
        assert(p[k] == name[k - n - 1]);
    }
    lemma_last_index_is(p, '/', n);
    lemma_last_index_is(name, '/', -1);
    assert(p.skip(n + 1) =~= name);
    assert(name.skip(0) =~= name);
}

proof fn lemma_last_index_is(s: Seq<char>, c: char, n: int)
    requires
        -1 <= n < s.len(),
        n >= 0 ==> s[n] == c,
        forall|k: int| n < k < s.len() ==> s[k] != c,
    ensures
        last_index(s, c) == n,
{
    lemma_last_index(s, c);
}

/// Texts are ordered by the first character in which they differ, and one comes
/// before what it is a beginning of.
pub proof fn law_order_of_texts(p: Seq<char>, a: Seq<char>, b: Seq<char>)
    requires
        b.len() > 0,
        a.len() > 0 ==> (a[0] as int) < b[0] as int,
    ensures
        precedes(p + a, p + b),
        !precedes(p + b, p + a),
    decreases p.len(),
{
    if p.len() == 0 {
        assert(p + a =~= a);
        assert(p + b =~= b);
    } else {
        let d = p.skip(1);
        assert((p + a).skip(1) =~= d + a);
        assert((p + b).skip(1) =~= d + b);
        assert((p + a)[0] == p[0] && (p + b)[0] == p[0]);
        law_order_of_texts(d, a, b);
    }
}

} // verus!
