//! Laws of the renumbering of accounts.

use vstd::prelude::*;

use crate::remap::{
    change_of, gids, groups_in_lines, id_of, is_one_sided, law_no_divergence_is_dropped,
    law_scratch_ids_are_free, lemma_one_sided_found, lemma_remaps_among, lemma_remaps_of,
    missing_names, names_in, one_sided, one_sided_among, passes_of, passwd_in_lines, remaps_of,
    room_for, scratch_ids, steps_of, trees, uids, updated, used_ids, GroupEntryView, IdKind,
    OwnerChange, PasswdEntryView, RemapEntryView, RemapStep, RemapTree,
};
use crate::scan::SysusersEntryView;
use crate::text::chars::{is_digit, is_white};
use crate::text::numbers::{
    decimal, digits_value, is_number, lemma_decimal_value, parse_number, without_plus,
};
use crate::text::order::{lemma_sorted_set, sorted_set};
use crate::text::pieces::{lemma_split_first, lemma_trim_around, split, trim};

verus! {

/// Whether the text is of white space alone.
pub open spec fn is_blank(s: Seq<char>) -> bool {
    forall|i: int| 0 <= i < s.len() ==> is_white(#[trigger] s[i])
}

/// Whether the text can name an account in a file of accounts.
pub open spec fn can_name(name: Seq<char>) -> bool {
    &&& name.len() > 0
    &&& name[0] != '#'
    &&& !is_white(name[0])
    &&& !is_white(name.last())
    &&& !name.contains(':')
}

proof fn lemma_padded(a: Seq<char>, s: Seq<char>, b: Seq<char>)
    requires
        is_blank(a),
        is_blank(b),
        !s.contains(':'),
        s.len() > 0,
        !is_white(s[0]),
        !is_white(s.last()),
    ensures
        !(a + s + b).contains(':'),
        trim(a + s + b) == s,
{
    let t = a + s + b;
    lemma_trim_around(a, s, b);
    if t.contains(':') {
        let k = choose|k: int| 0 <= k < t.len() && t[k] == ':';
        if k < a.len() {
            assert(is_white(a[k]));
        } else if k < a.len() + s.len() {
            assert(s[k - a.len()] == ':');
        } else {
            assert(is_white(b[k - a.len() - s.len()]));
        }
    }
}

/// A number in decimal digits is read as it is.
pub proof fn lemma_number_is_read(n: u32)
    ensures
        parse_number(decimal(n as nat), u32::MAX as nat) == Some(n as nat),
        decimal(n as nat).len() > 0,
        !decimal(n as nat).contains(':'),
        !is_white(decimal(n as nat)[0]),
        !is_white(decimal(n as nat).last()),
{
    let d = decimal(n as nat);
    lemma_decimal_value(n as nat);
    assert(is_digit(d[0]));
    assert(is_digit(d[d.len() - 1]));
    assert(without_plus(d) == d);
    if d.contains(':') {
        let k = choose|k: int| 0 <= k < d.len() && d[k] == ':';
        assert(is_digit(d[k]));
    }
}

/// The groups of two runs of lines are those of the one and of the other.
pub proof fn law_groups_are_read_line_by_line(a: Seq<Seq<char>>, b: Seq<Seq<char>>)
    ensures
        groups_in_lines(a + b) == groups_in_lines(a) + groups_in_lines(b),
    decreases b.len(),
{
    if b.len() == 0 {
        assert(a + b =~= a);
        assert(groups_in_lines(a) + groups_in_lines(b) =~= groups_in_lines(a));
    } else {
        law_groups_are_read_line_by_line(a, b.drop_last());
        assert((a + b).drop_last() =~= a + b.drop_last());
        assert((a + b).last() == b.last());
        assert(groups_in_lines(a + b) =~= groups_in_lines(a) + groups_in_lines(b));
    }
}

/// The accounts of two runs of lines are those of the one and of the other.
pub proof fn law_accounts_are_read_line_by_line(a: Seq<Seq<char>>, b: Seq<Seq<char>>)
    ensures
        passwd_in_lines(a + b) == passwd_in_lines(a) + passwd_in_lines(b),
    decreases b.len(),
{
    if b.len() == 0 {
        assert(a + b =~= a);
        assert(passwd_in_lines(a) + passwd_in_lines(b) =~= passwd_in_lines(a));
    } else {
        law_accounts_are_read_line_by_line(a, b.drop_last());
        assert((a + b).drop_last() =~= a + b.drop_last());
        assert((a + b).last() == b.last());
        assert(passwd_in_lines(a + b) =~= passwd_in_lines(a) + passwd_in_lines(b));
    }
}

/// A group is read from its line, wherever that stands: its name, anything as a
/// password, and its gid, with white space around name and gid or none. Its
/// members, and whatever else follows, make no difference.
pub proof fn law_group_is_read_from_its_line(
    before: Seq<Seq<char>>,
    after: Seq<Seq<char>>,
    blanks: (Seq<char>, Seq<char>, Seq<char>, Seq<char>),
    name: Seq<char>,
    password: Seq<char>,
    gid: u32,
    tail: Seq<char>,
)
    requires
        can_name(name),
        !password.contains(':'),
        is_blank(blanks.0),
        is_blank(blanks.1),
        is_blank(blanks.2),
        is_blank(blanks.3),
        tail.len() == 0 || tail[0] == ':',
    ensures
        ({
            let line = blanks.0 + name + blanks.1 + seq![':'] + (password + seq![':'] + (blanks.2
                + decimal(gid as nat) + blanks.3 + tail));
            groups_in_lines(before + seq![line] + after) == groups_in_lines(before).push(
                GroupEntryView { name, gid },
            ) + groups_in_lines(after)
        }),
{
    let number = blanks.2 + decimal(gid as nat) + blanks.3;
    let first = blanks.0 + name + blanks.1;
    let rest = password + seq![':'] + (number + tail);
    let line = first + seq![':'] + rest;
    lemma_number_is_read(gid);
    lemma_padded(blanks.0, name, blanks.1);
    lemma_padded(blanks.2, decimal(gid as nat), blanks.3);
    lemma_split_first(first, rest, ':');
    lemma_split_first(password, number + tail, ':');
    if tail.len() == 0 {
        assert(number + tail =~= number);
        lemma_split_first(number, tail, ':');
    } else {
        assert(number + tail =~= number + seq![':'] + tail.skip(1));
        lemma_split_first(number, tail.skip(1), ':');
    }
    let f = split(line, ':');
    assert(f.len() >= 3 && f[0] == first && f[2] == number);
    let one = seq![line];
    assert(one.drop_last() =~= Seq::<Seq<char>>::empty());
    assert(groups_in_lines(one.drop_last()) =~= Seq::empty());
    assert(groups_in_lines(one) =~= seq![GroupEntryView { name, gid }]);
    law_groups_are_read_line_by_line(before, one);
    law_groups_are_read_line_by_line(before + one, after);
    assert(groups_in_lines(before) + seq![GroupEntryView { name, gid }] =~= groups_in_lines(
        before,
    ).push(GroupEntryView { name, gid }));
}

/// An account is read from its line, wherever that stands: its name, anything
/// as a password, its uid and its gid. Whatever follows makes no difference.
pub proof fn law_account_is_read_from_its_line(
    before: Seq<Seq<char>>,
    after: Seq<Seq<char>>,
    blanks: (Seq<char>, Seq<char>, Seq<char>, Seq<char>),
    name: Seq<char>,
    password: Seq<char>,
    uid: u32,
    gid: u32,
    tail: Seq<char>,
)
    requires
        can_name(name),
        !password.contains(':'),
        is_blank(blanks.0),
        is_blank(blanks.1),
        is_blank(blanks.2),
        is_blank(blanks.3),
        tail.len() == 0 || tail[0] == ':',
    ensures
        ({
            let line = blanks.0 + name + blanks.1 + seq![':'] + (password + seq![':'] + (blanks.2
                + decimal(uid as nat) + blanks.3 + seq![':'] + (blanks.3 + decimal(gid as nat)
                + blanks.2 + tail)));
            passwd_in_lines(before + seq![line] + after) == passwd_in_lines(before).push(
                PasswdEntryView { name, uid, gid },
            ) + passwd_in_lines(after)
        }),
{
    let user = blanks.2 + decimal(uid as nat) + blanks.3;
    let group = blanks.3 + decimal(gid as nat) + blanks.2;
    let first = blanks.0 + name + blanks.1;
    let rest = password + seq![':'] + (user + seq![':'] + (group + tail));
    let line = first + seq![':'] + rest;
    lemma_number_is_read(uid);
    lemma_number_is_read(gid);
    lemma_padded(blanks.0, name, blanks.1);
    lemma_padded(blanks.2, decimal(uid as nat), blanks.3);
    lemma_padded(blanks.3, decimal(gid as nat), blanks.2);
    lemma_split_first(first, rest, ':');
    lemma_split_first(password, user + seq![':'] + (group + tail), ':');
    lemma_split_first(user, group + tail, ':');
    if tail.len() == 0 {
        assert(group + tail =~= group);
        lemma_split_first(group, tail, ':');
    } else {
        assert(group + tail =~= group + seq![':'] + tail.skip(1));
        lemma_split_first(group, tail.skip(1), ':');
    }
    let f = split(line, ':');
    assert(f.len() >= 4 && f[0] == first && f[2] == user && f[3] == group);
    let e = PasswdEntryView { name, uid, gid };
    let one = seq![line];
    assert(one.drop_last() =~= Seq::<Seq<char>>::empty());
    assert(passwd_in_lines(one.drop_last()) =~= Seq::empty());
    assert(passwd_in_lines(one) =~= seq![e]);
    law_accounts_are_read_line_by_line(before, one);
    law_accounts_are_read_line_by_line(before + one, after);
    assert(passwd_in_lines(before) + seq![e] =~= passwd_in_lines(before).push(e));
}

/// Whether the text writes the number in decimal digits, with white space
/// around it or a plus sign before it.
pub open spec fn writes_number(s: Seq<char>, n: u32) -> bool {
    let d = without_plus(trim(s));
    is_number(d) && digits_value(d) == n as nat
}

/// A group that was read stands in a line with its name and its gid.
pub proof fn law_group_that_is_read_stands_in_a_line(ls: Seq<Seq<char>>, k: int)
    requires
        0 <= k < groups_in_lines(ls).len(),
    ensures
        exists|i: int|
            0 <= i < ls.len() && ({
                let f = split(#[trigger] ls[i], ':');
                let e = groups_in_lines(ls)[k];
                &&& f.len() >= 3
                &&& trim(f[0]) == e.name
                &&& e.name.len() > 0
                &&& e.name[0] != '#'
                &&& writes_number(f[2], e.gid)
            }),
    decreases ls.len(),
{
    let d = ls.drop_last();
    let rest = groups_in_lines(d);
    if k < rest.len() {
        law_group_that_is_read_stands_in_a_line(d, k);
        assert(groups_in_lines(ls)[k] == rest[k]);
        let i = choose|i: int|
            0 <= i < d.len() && ({
                let f = split(#[trigger] d[i], ':');
                let e = rest[k];
                &&& f.len() >= 3
                &&& trim(f[0]) == e.name
                &&& e.name.len() > 0
                &&& e.name[0] != '#'
                &&& writes_number(f[2], e.gid)
            });
        assert(ls[i] == d[i]);
    } else {
        assert(ls[ls.len() - 1] == ls.last());
    }
}

/// An account that was read stands in a line with its name, its uid and its gid.
pub proof fn law_account_that_is_read_stands_in_a_line(ls: Seq<Seq<char>>, k: int)
    requires
        0 <= k < passwd_in_lines(ls).len(),
    ensures
        exists|i: int|
            0 <= i < ls.len() && ({
                let f = split(#[trigger] ls[i], ':');
                let e = passwd_in_lines(ls)[k];
                &&& f.len() >= 4
                &&& trim(f[0]) == e.name
                &&& e.name.len() > 0
                &&& e.name[0] != '#'
                &&& writes_number(f[2], e.uid)
                &&& writes_number(f[3], e.gid)
            }),
    decreases ls.len(),
{
    let d = ls.drop_last();
    let rest = passwd_in_lines(d);
    if k < rest.len() {
        law_account_that_is_read_stands_in_a_line(d, k);
        assert(passwd_in_lines(ls)[k] == rest[k]);
        let i = choose|i: int|
            0 <= i < d.len() && ({
                let f = split(#[trigger] d[i], ':');
                let e = rest[k];
                &&& f.len() >= 4
                &&& trim(f[0]) == e.name
                &&& e.name.len() > 0
                &&& e.name[0] != '#'
                &&& writes_number(f[2], e.uid)
                &&& writes_number(f[3], e.gid)
            });
        assert(ls[i] == d[i]);
    } else {
        assert(ls[ls.len() - 1] == ls.last());
    }
}

/// Whether line `i` is the last with its name.
pub open spec fn is_last_line(t: Seq<(Seq<char>, u32)>, i: int) -> bool {
    0 <= i < t.len() && forall|j: int| i < j < t.len() ==> (#[trigger] t[j]).0 != t[i].0
}

/// Whether both numbers are ids of system accounts.
pub open spec fn are_system_ids(a: u32, b: u32) -> bool {
    0 < a < 1000 && 0 < b < 1000
}

proof fn lemma_id_of_last_line(t: Seq<(Seq<char>, u32)>, i: int)
    requires
        is_last_line(t, i),
    ensures
        id_of(t, t[i].0) == Some(t[i].1),
        names_in(t).contains(t[i].0),
    decreases t.len(),
{
    assert(names_in(t)[i] == t[i].0);
    if i < t.len() - 1 {
        let d = t.drop_last();
        assert(t[t.len() - 1].0 != t[i].0);
        assert(d[i] == t[i]);
        assert forall|j: int| i < j < d.len() implies (#[trigger] d[j]).0 != d[i].0 by {
            assert(t[j] == d[j]);
        }
        lemma_id_of_last_line(d, i);
    }
}

proof fn lemma_last_line_of_id(t: Seq<(Seq<char>, u32)>, name: Seq<char>)
    ensures
        match id_of(t, name) {
            Some(id) => exists|i: int| #[trigger] is_last_line(t, i) && t[i] == (name, id),
            None => forall|i: int| 0 <= i < t.len() ==> (#[trigger] t[i]).0 != name,
        },
    decreases t.len(),
{
    if t.len() > 0 {
        let n = t.len() - 1;
        if t.last().0 == name {
            assert(is_last_line(t, n));
        } else {
            let d = t.drop_last();
            lemma_last_line_of_id(d, name);
            match id_of(d, name) {
                Some(id) => {
                    let i = choose|i: int| #[trigger] is_last_line(d, i) && d[i] == (name, id);
                    assert forall|j: int| i < j < t.len() implies (#[trigger] t[j]).0 != t[i].0 by {
                        if j < n {
                            assert(d[j] == t[j]);
                        }
                    }
                    assert(is_last_line(t, i));
                },
                None => {
                    assert forall|i: int| 0 <= i < t.len() implies (#[trigger] t[i]).0 != name by {
                        if i < n {
                            assert(d[i] == t[i]);
                        }
                    }
                },
            }
        }
    }
}

/// The table of users or of groups.
pub open spec fn table(
    kind: IdKind,
    passwd: Seq<PasswdEntryView>,
    group: Seq<GroupEntryView>,
) -> Seq<(Seq<char>, u32)> {
    match kind {
        IdKind::Uid => Seq::new(passwd.len(), |i: int| (passwd[i].name, passwd[i].uid)),
        IdKind::Gid => Seq::new(group.len(), |i: int| (group[i].name, group[i].gid)),
    }
}

/// A user or group that both sides have, under different system ids, is
/// renumbered from the one to the other; what counts of several lines with a
/// name is the last.
pub proof fn law_every_shared_system_account_is_renumbered(
    source: (Seq<PasswdEntryView>, Seq<GroupEntryView>),
    target: (Seq<PasswdEntryView>, Seq<GroupEntryView>),
    kind: IdKind,
    i: int,
    j: int,
)
    requires
        is_last_line(table(kind, source.0, source.1), i),
        is_last_line(table(kind, target.0, target.1), j),
        table(kind, source.0, source.1)[i].0 == table(kind, target.0, target.1)[j].0,
        table(kind, source.0, source.1)[i].1 != table(kind, target.0, target.1)[j].1,
        are_system_ids(
            table(kind, source.0, source.1)[i].1,
            table(kind, target.0, target.1)[j].1,
        ),
    ensures
        remaps_of(source.0, source.1, target.0, target.1).contains(
            RemapEntryView {
                name: table(kind, source.0, source.1)[i].0,
                kind,
                old_id: table(kind, source.0, source.1)[i].1,
                new_id: table(kind, target.0, target.1)[j].1,
            },
        ),
{
    let s = table(kind, source.0, source.1);
    let t = table(kind, target.0, target.1);
    let all = remaps_of(source.0, source.1, target.0, target.1);
    lemma_id_of_last_line(s, i);
    lemma_id_of_last_line(t, j);
    law_no_divergence_is_dropped(kind, s, t, s[i].0);
    let e = RemapEntryView { name: s[i].0, kind, old_id: s[i].1, new_id: t[j].1 };
    match kind {
        IdKind::Uid => {
            assert(s =~= uids(source.0) && t =~= uids(target.0));
            let a = crate::remap::diverging(kind, s, t);
            let k = choose|k: int| 0 <= k < a.len() && a[k] == e;
            assert(all[k] == e);
        },
        IdKind::Gid => {
            assert(s =~= gids(source.1) && t =~= gids(target.1));
            let a = crate::remap::diverging(kind, s, t);
            let k = choose|k: int| 0 <= k < a.len() && a[k] == e;
            let n = crate::remap::diverging(IdKind::Uid, uids(source.0), uids(target.0)).len();
            assert(all[n + k] == e);
        },
    }
}

/// Nothing else is renumbered: each renumbering is of a user or group that both
/// sides have, from its id on the source to another on the target, both of them
/// system ids.
pub proof fn law_only_shared_system_accounts_are_renumbered(
    source: (Seq<PasswdEntryView>, Seq<GroupEntryView>),
    target: (Seq<PasswdEntryView>, Seq<GroupEntryView>),
    k: int,
)
    requires
        0 <= k < remaps_of(source.0, source.1, target.0, target.1).len(),
    ensures
        ({
            let e = remaps_of(source.0, source.1, target.0, target.1)[k];
            let s = table(e.kind, source.0, source.1);
            let t = table(e.kind, target.0, target.1);
            &&& exists|i: int| #[trigger] is_last_line(s, i) && s[i] == (e.name, e.old_id)
            &&& exists|j: int| #[trigger] is_last_line(t, j) && t[j] == (e.name, e.new_id)
            &&& e.old_id != e.new_id
            &&& are_system_ids(e.old_id, e.new_id)
        }),
{
    let e = remaps_of(source.0, source.1, target.0, target.1)[k];
    let (su, tu) = (uids(source.0), uids(target.0));
    let (sg, tg) = (gids(source.1), gids(target.1));
    let a = crate::remap::diverging(IdKind::Uid, su, tu);
    lemma_remaps_among(IdKind::Uid, sorted_set(names_in(su)), su, tu);
    lemma_remaps_among(IdKind::Gid, sorted_set(names_in(sg)), sg, tg);
    if k < a.len() {
        assert(e == a[k]);
    } else {
        assert(e == crate::remap::diverging(IdKind::Gid, sg, tg)[k - a.len()]);
    }
    let s = table(e.kind, source.0, source.1);
    let t = table(e.kind, target.0, target.1);
    match e.kind {
        IdKind::Uid => assert(s =~= su && t =~= tu),
        IdKind::Gid => assert(s =~= sg && t =~= tg),
    }
    lemma_last_line_of_id(s, e.name);
    lemma_last_line_of_id(t, e.name);
}

/// Whether a line of `a` has the name, and the other table has no line with it,
/// or one with another id that is not renumbered.
pub open spec fn differs_in(
    a: Seq<(Seq<char>, u32)>,
    b: Seq<(Seq<char>, u32)>,
    name: Seq<char>,
) -> bool {
    exists|i: int| #[trigger]
        is_last_line(a, i) && a[i].0 == name && {
            ||| forall|j: int| 0 <= j < b.len() ==> (#[trigger] b[j]).0 != name
            ||| exists|j: int| #[trigger]
                is_last_line(b, j) && b[j].0 == name && b[j].1 != a[i].1 && !are_system_ids(
                    a[i].1,
                    b[j].1,
                )
        }
}

proof fn lemma_one_sided_is(
    names: Seq<Seq<char>>,
    a: Seq<(Seq<char>, u32)>,
    b: Seq<(Seq<char>, u32)>,
    name: Seq<char>,
)
    requires
        one_sided_among(names, a, b).contains(name),
    ensures
        names.contains(name),
        is_one_sided(a, b, name),
    decreases names.len(),
{
    let r = one_sided_among(names, a, b);
    let k = choose|k: int| 0 <= k < r.len() && r[k] == name;
    let d = names.drop_last();
    let rest = one_sided_among(d, a, b);
    assert(names[names.len() - 1] == names.last());
    if k < rest.len() {
        assert(rest[k] == name);
        lemma_one_sided_is(d, a, b, name);
        let m = choose|m: int| 0 <= m < d.len() && d[m] == name;
        assert(names[m] == name);
    }
}

proof fn lemma_one_sided(a: Seq<(Seq<char>, u32)>, b: Seq<(Seq<char>, u32)>, name: Seq<char>)
    ensures
        one_sided(a, b).contains(name) <==> differs_in(a, b, name),
{
    lemma_last_line_of_id(a, name);
    lemma_last_line_of_id(b, name);
    if one_sided(a, b).contains(name) {
        lemma_one_sided_is(names_in(a), a, b, name);
        let m = choose|m: int| 0 <= m < names_in(a).len() && names_in(a)[m] == name;
        assert(a[m].0 == name);
        let id = id_of(a, name)->0;
        let i = choose|i: int| #[trigger] is_last_line(a, i) && a[i] == (name, id);
        assert(is_last_line(a, i) && a[i].0 == name);
        if id_of(b, name) is Some {
            let j = choose|j: int| #[trigger]
                is_last_line(b, j) && b[j] == (name, id_of(b, name)->0);
            assert(is_last_line(b, j) && b[j].0 == name && b[j].1 != a[i].1);
        }
    }
    if differs_in(a, b, name) {
        let i = choose|i: int| #[trigger]
            is_last_line(a, i) && a[i].0 == name && {
                ||| forall|j: int| 0 <= j < b.len() ==> (#[trigger] b[j]).0 != name
                ||| exists|j: int| #[trigger]
                    is_last_line(b, j) && b[j].0 == name && b[j].1 != a[i].1 && !are_system_ids(
                        a[i].1,
                        b[j].1,
                    )
            };
        lemma_id_of_last_line(a, i);
        if exists|j: int| #[trigger]
            is_last_line(b, j) && b[j].0 == name && b[j].1 != a[i].1 && !are_system_ids(
                a[i].1,
                b[j].1,
            ) {
            let j = choose|j: int| #[trigger]
                is_last_line(b, j) && b[j].0 == name && b[j].1 != a[i].1 && !are_system_ids(
                    a[i].1,
                    b[j].1,
                );
            lemma_id_of_last_line(b, j);
        } else {
            if id_of(b, name) is Some {
                let j = choose|j: int| #[trigger]
                    is_last_line(b, j) && b[j] == (name, id_of(b, name)->0);
                assert(b[j].0 == name);
            }
        }
        lemma_one_sided_found(names_in(a), a, b, name);
    }
}

proof fn lemma_sorted_holds(s: Seq<Seq<char>>, x: Seq<char>)
    ensures
        sorted_set(s).contains(x) <==> s.contains(x),
{
    lemma_sorted_set(s);
    assert(sorted_set(s).to_set().contains(x) <==> s.to_set().contains(x));
}

proof fn lemma_concat_holds(a: Seq<Seq<char>>, b: Seq<Seq<char>>, x: Seq<char>)
    ensures
        (a + b).contains(x) <==> a.contains(x) || b.contains(x),
{
    if a.contains(x) {
        let k = choose|k: int| 0 <= k < a.len() && a[k] == x;
        assert((a + b)[k] == x);
    }
    if b.contains(x) {
        let k = choose|k: int| 0 <= k < b.len() && b[k] == x;
        assert((a + b)[a.len() + k] == x);
    }
    if (a + b).contains(x) {
        let k = choose|k: int| 0 <= k < (a + b).len() && (a + b)[k] == x;
        if k < a.len() {
            assert(a[k] == x);
        } else {
            assert(b[k - a.len()] == x);
        }
    }
}

/// The names that a plan lists for one side are those of its users and groups
/// that the other lacks, or has under another id and both are not of the
/// system; and no others.
pub proof fn law_listed_names_are_the_one_sided_ones(
    side: (Seq<PasswdEntryView>, Seq<GroupEntryView>),
    other: (Seq<PasswdEntryView>, Seq<GroupEntryView>),
    name: Seq<char>,
)
    ensures
        sorted_set(
            one_sided(uids(side.0), uids(other.0)) + one_sided(gids(side.1), gids(other.1)),
        ).contains(name) <==> {
            ||| differs_in(
                table(IdKind::Uid, side.0, side.1),
                table(IdKind::Uid, other.0, other.1),
                name,
            )
            ||| differs_in(
                table(IdKind::Gid, side.0, side.1),
                table(IdKind::Gid, other.0, other.1),
                name,
            )
        },
{
    let u = one_sided(uids(side.0), uids(other.0));
    let g = one_sided(gids(side.1), gids(other.1));
    lemma_sorted_holds(u + g, name);
    lemma_concat_holds(u, g, name);
    lemma_one_sided(uids(side.0), uids(other.0), name);
    lemma_one_sided(gids(side.1), gids(other.1), name);
    assert(table(IdKind::Uid, side.0, side.1) =~= uids(side.0));
    assert(table(IdKind::Uid, other.0, other.1) =~= uids(other.0));
    assert(table(IdKind::Gid, side.0, side.1) =~= gids(side.1));
    assert(table(IdKind::Gid, other.0, other.1) =~= gids(other.1));
}

/// Each renumbering of a plan has two passes: one to an id of its own, above
/// those of the system, that no account and no group of either side has, and
/// none as its primary group, and one from there to its new id, behind all of
/// the first kind.
pub proof fn law_passes_go_through_unused_ids(
    source: (Seq<PasswdEntryView>, Seq<GroupEntryView>),
    target: (Seq<PasswdEntryView>, Seq<GroupEntryView>),
    k: int,
)
    requires
        room_for(source.0.len(), source.1.len(), target.0.len(), target.1.len()),
        0 <= k < remaps_of(source.0, source.1, target.0, target.1).len(),
    ensures
        ({
            let remaps = remaps_of(source.0, source.1, target.0, target.1);
            let used = used_ids(source.0, source.1, target.0, target.1);
            let steps = steps_of(remaps, scratch_ids(used, remaps.len()));
            let n = remaps.len() as int;
            let x = steps[k].to;
            &&& steps.len() == 2 * n
            &&& steps[k] == RemapStep { kind: remaps[k].kind, from: remaps[k].old_id, to: x }
            &&& steps[n + k] == RemapStep { kind: remaps[k].kind, from: x, to: remaps[k].new_id }
            &&& x >= 60000
            &&& forall|i: int| 0 <= i < n && i != k ==> (#[trigger] steps[i]).to != x
            &&& forall|i: int|
                0 <= i < source.0.len() ==> (#[trigger] source.0[i]).uid != x && source.0[i].gid
                    != x
            &&& forall|i: int|
                0 <= i < target.0.len() ==> (#[trigger] target.0[i]).uid != x && target.0[i].gid
                    != x
            &&& forall|i: int| 0 <= i < source.1.len() ==> (#[trigger] source.1[i]).gid != x
            &&& forall|i: int| 0 <= i < target.1.len() ==> (#[trigger] target.1[i]).gid != x
        }),
{
    let remaps = remaps_of(source.0, source.1, target.0, target.1);
    let used = used_ids(source.0, source.1, target.0, target.1);
    let scratch = scratch_ids(used, remaps.len());
    let steps = steps_of(remaps, scratch);
    let n = remaps.len() as int;
    let x = steps[k].to;
    lemma_remaps_of(source.0, source.1, target.0, target.1);
    law_scratch_ids_are_free(used, remaps.len());
    assert(60000 <= scratch[k] < u32::MAX && !used.contains(scratch[k] as u32));
    assert(x == scratch[k] as u32);
    assert forall|i: int| 0 <= i < n && i != k implies (#[trigger] steps[i]).to != x by {
        assert(scratch[i] != scratch[k]);
        assert(60000 <= scratch[i] < u32::MAX);
    }
    let a = source.0.len() as int;
    let b = target.0.len() as int;
    let c = source.1.len() as int;
    assert forall|i: int| 0 <= i < source.0.len() implies (#[trigger] source.0[i]).uid != x
        && source.0[i].gid != x by {
        assert(used[i] == source.0[i].uid);
        assert(used[a + i] == source.0[i].gid);
    }
    assert forall|i: int| 0 <= i < target.0.len() implies (#[trigger] target.0[i]).uid != x
        && target.0[i].gid != x by {
        assert(used[2 * a + i] == target.0[i].uid);
        assert(used[2 * a + b + i] == target.0[i].gid);
    }
    assert forall|i: int| 0 <= i < source.1.len() implies (#[trigger] source.1[i]).gid != x by {
        assert(used[2 * a + 2 * b + i] == source.1[i].gid);
    }
    assert forall|i: int| 0 <= i < target.1.len() implies (#[trigger] target.1[i]).gid != x by {
        assert(used[2 * a + 2 * b + c + i] == target.1[i].gid);
    }
}

/// A pass sets the uid, or the gid, of the files that have the id it starts
/// from, and leaves every other file alone.
pub proof fn law_pass_touches_its_files_only(step: RemapStep, uid: u32, gid: u32)
    ensures
        step.kind == IdKind::Uid && uid == step.from ==> change_of(step, uid, gid) == Some(
            (Some(step.to), None::<u32>),
        ),
        step.kind == IdKind::Gid && gid == step.from ==> change_of(step, uid, gid) == Some(
            (None::<u32>, Some(step.to)),
        ),
        step.kind == IdKind::Uid && uid != step.from ==> change_of(step, uid, gid) is None,
        step.kind == IdKind::Gid && gid != step.from ==> change_of(step, uid, gid) is None,
{
}

/// The passes run over `/var` and `/etc`, each where it exists, and nowhere
/// else: a pass over a tree is made if and only if it is one of the plan's and
/// the tree is there.
pub proof fn law_passes_run_over_the_trees_that_exist(
    steps: Seq<RemapStep>,
    var_exists: bool,
    etc_exists: bool,
    step: RemapStep,
    tree: RemapTree,
)
    ensures
        passes_of(steps, trees(var_exists, etc_exists)).contains((step, tree)) <==> {
            &&& steps.contains(step)
            &&& tree == RemapTree::Var ==> var_exists
            &&& tree == RemapTree::Etc ==> etc_exists
        },
        passes_of(steps, trees(var_exists, etc_exists)).len() == steps.len() * ((if var_exists {
            1int
        } else {
            0int
        }) + (if etc_exists {
            1int
        } else {
            0int
        })),
    decreases steps.len(),
{
    let ts = trees(var_exists, etc_exists);
    let all = passes_of(steps, ts);
    if steps.len() > 0 {
        let d = steps.drop_last();
        let n = steps.len() - 1;
        law_passes_run_over_the_trees_that_exist(d, var_exists, etc_exists, step, tree);
        let before = passes_of(d, ts);
        let now = ts.map_values(|t: RemapTree| (steps.last(), t));
        assert(all == before + now);
        assert(ts.contains(RemapTree::Var) <==> var_exists) by {
            if var_exists {
                assert(ts[0] == RemapTree::Var);
            }
        }
        assert(ts.contains(RemapTree::Etc) <==> etc_exists) by {
            if etc_exists {
                assert(ts[ts.len() - 1] == RemapTree::Etc);
            }
        }
        let m = ts.len() as int;
        assert((d.len() + 1) * m == d.len() * m + m) by (nonlinear_arith);
        if all.contains((step, tree)) {
            let k = choose|k: int| 0 <= k < all.len() && all[k] == (step, tree);
            if k < before.len() {
                assert(before[k] == (step, tree));
                let i = choose|i: int| 0 <= i < d.len() && d[i] == step;
                assert(steps[i] == step);
            } else {
                assert(now[k - before.len()] == (step, tree));
                assert(ts[k - before.len()] == tree);
                assert(steps[n] == step);
            }
        }
        if steps.contains(step) && ts.contains(tree) {
            let i = choose|i: int| 0 <= i < steps.len() && steps[i] == step;
            if i < n {
                assert(d[i] == step);
                let k = choose|k: int| 0 <= k < before.len() && before[k] == (step, tree);
                assert(all[k] == (step, tree));
            } else {
                let k = choose|k: int| 0 <= k < ts.len() && ts[k] == tree;
                assert(now[k] == (step, tree));
                assert(all[before.len() + k] == (step, tree));
            }
        }
    }
}

/// The files that are counted are those whose owner is another than before.
pub proof fn law_counted_files_have_another_owner(files: Seq<OwnerChange>)
    ensures
        updated(files) == files.filter(|f: OwnerChange| f.before != f.after).len(),
    decreases files.len(),
{
    reveal(Seq::filter);
    if files.len() > 0 {
        law_counted_files_have_another_owner(files.drop_last());
    }
}

/// The accounts that are reported as missing are the users that the target
/// declares and no line of the host's accounts names, and the groups likewise.
pub proof fn law_missing_accounts_are_those_the_host_lacks(
    target: Seq<SysusersEntryView>,
    passwd: Seq<PasswdEntryView>,
    group: Seq<GroupEntryView>,
    name: Seq<char>,
)
    ensures
        sorted_set(missing_names(target, passwd, group)).contains(name) <==> exists|i: int|
            0 <= i < target.len() && (#[trigger] target[i]).name == name && {
                ||| target[i].kind == 'u' && forall|k: int|
                    0 <= k < passwd.len() ==> (#[trigger] passwd[k]).name != name
                ||| target[i].kind == 'g' && forall|k: int|
                    0 <= k < group.len() ==> (#[trigger] group[k]).name != name
            },
    decreases target.len(),
{
    let all = missing_names(target, passwd, group);
    lemma_sorted_holds(all, name);
    if target.len() > 0 {
        let d = target.drop_last();
        let n = target.len() - 1;
        let rest = missing_names(d, passwd, group);
        law_missing_accounts_are_those_the_host_lacks(d, passwd, group, name);
        lemma_sorted_holds(rest, name);
        assert(target[n] == target.last());
        assert forall|i: int| 0 <= i < d.len() implies #[trigger] d[i] == target[i] by {}
        if rest.contains(name) {
            let k = choose|k: int| 0 <= k < rest.len() && rest[k] == name;
            assert(all[k] == name);
        }
        if all.contains(name) {
            let k = choose|k: int| 0 <= k < all.len() && all[k] == name;
            if k < rest.len() {
                assert(rest[k] == name);
                let i = choose|i: int|
                    0 <= i < d.len() && (#[trigger] d[i]).name == name && {
                        ||| d[i].kind == 'u' && forall|k: int|
                            0 <= k < passwd.len() ==> (#[trigger] passwd[k]).name != name
                        ||| d[i].kind == 'g' && forall|k: int|
                            0 <= k < group.len() ==> (#[trigger] group[k]).name != name
                    };
                assert(target[i].name == name);
            } else {
                assert(target[n].name == name);
            }
        }
        if exists|i: int|
            0 <= i < target.len() && (#[trigger] target[i]).name == name && {
                ||| target[i].kind == 'u' && forall|k: int|
                    0 <= k < passwd.len() ==> (#[trigger] passwd[k]).name != name
                ||| target[i].kind == 'g' && forall|k: int|
                    0 <= k < group.len() ==> (#[trigger] group[k]).name != name
            } {
            let i = choose|i: int|
                0 <= i < target.len() && (#[trigger] target[i]).name == name && {
                    ||| target[i].kind == 'u' && forall|k: int|
                        0 <= k < passwd.len() ==> (#[trigger] passwd[k]).name != name
                    ||| target[i].kind == 'g' && forall|k: int|
                        0 <= k < group.len() ==> (#[trigger] group[k]).name != name
                };
            if i < n {
                assert(d[i].name == name);
            } else {
                assert(all[all.len() - 1] == name);
            }
        }
    }
}

} // verus!
