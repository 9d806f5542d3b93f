//! Renumbering the system accounts of two bases that disagree.
//!
//! The same account can hold one id on the source system and another in the
//! target image. Files carry the source's ids, so each diverging account's
//! files are renumbered. Renumberings can collide (one account takes the id
//! that another leaves), so every one goes through a scratch id that neither
//! side uses: first all accounts move to their scratch ids, then on to their
//! final ones.

use vstd::prelude::*;

use crate::scan::{SysusersEntry, SysusersEntryView};
use crate::text::compose::{join, joined, pad_right, padded_right};
use crate::text::numbers::{decimal, decimal_of, parse_number, parse_u32};
use crate::text::order::{lemma_sorted_set, sort_unique, sorted_set};
use crate::text::pieces::{lines, lines_of, split, split_at, trim, trimmed};
use crate::text::search::same;

verus! {

/// Ids below this belong to the system. Those of human users, from here on,
/// are the same on every base.
pub const SYSTEM_ID_LIMIT: u32 = 1000;

/// The first id considered as a scratch id.
pub const SCRATCH_START: u32 = 60000;

/// One line of `/etc/passwd`.
#[derive(Debug, Clone, PartialEq, Eq)]
pub struct PasswdEntry {
    pub name: String,
    pub uid: u32,
    pub gid: u32,
}

/// What a [`PasswdEntry`] holds.
#[verifier::ext_equal]
pub struct PasswdEntryView {
    pub name: Seq<char>,
    pub uid: u32,
    pub gid: u32,
}

impl DeepView for PasswdEntry {
    type V = PasswdEntryView;

    open spec fn deep_view(&self) -> PasswdEntryView {
        PasswdEntryView { name: self.name@, uid: self.uid, gid: self.gid }
    }
}

/// One line of `/etc/group`.
#[derive(Debug, Clone, PartialEq, Eq)]
pub struct GroupEntry {
    pub name: String,
    pub gid: u32,
}

/// What a [`GroupEntry`] holds.
#[verifier::ext_equal]
pub struct GroupEntryView {
    pub name: Seq<char>,
    pub gid: u32,
}

impl DeepView for GroupEntry {
    type V = GroupEntryView;

    open spec fn deep_view(&self) -> GroupEntryView {
        GroupEntryView { name: self.name@, gid: self.gid }
    }
}

/// Whether an id is a user's or a group's.
#[derive(Debug, Clone, Copy, PartialEq, Eq, Structural)]
pub enum IdKind {
    Uid,
    Gid,
}

/// An account whose id differs between source and target.
#[derive(Debug, Clone, PartialEq, Eq)]
pub struct RemapEntry {
    pub name: String,
    pub kind: IdKind,
    pub old_id: u32,
    pub new_id: u32,
}

/// What a [`RemapEntry`] holds.
#[verifier::ext_equal]
pub struct RemapEntryView {
    pub name: Seq<char>,
    pub kind: IdKind,
    pub old_id: u32,
    pub new_id: u32,
}

impl DeepView for RemapEntry {
    type V = RemapEntryView;

    open spec fn deep_view(&self) -> RemapEntryView {
        RemapEntryView {
            name: self.name@,
            kind: self.kind,
            old_id: self.old_id,
            new_id: self.new_id,
        }
    }
}

/// One pass over the files: every file owned by `from` gets the owner `to`.
#[derive(Debug, Clone, Copy, PartialEq, Eq, Structural)]
pub struct RemapStep {
    pub kind: IdKind,
    pub from: u32,
    pub to: u32,
}

/// What diverges, what is done about it, and what is left alone.
#[derive(Debug, Clone, PartialEq, Eq)]
pub struct RemapPlan {
    /// Accounts with one name and two ids.
    pub remaps: Vec<RemapEntry>,
    /// Accounts that only the source has.
    pub source_only: Vec<String>,
    /// Accounts that only the target has.
    pub target_only: Vec<String>,
    /// The passes that carry out `remaps`, in order.
    pub steps: Vec<RemapStep>,
}

impl Default for RemapPlan {
    /// Nothing diverges.
    fn default() -> (r: Self)
        ensures
            r.remaps@.len() == 0,
            r.source_only@.len() == 0,
            r.target_only@.len() == 0,
            r.steps@.len() == 0,
    {
        RemapPlan {
            remaps: Vec::new(),
            source_only: Vec::new(),
            target_only: Vec::new(),
            steps: Vec::new(),
        }
    }
}

impl RemapPlan {
    /// Whether the bases agree on every shared system account.
    pub fn is_empty(&self) -> (r: bool)
        ensures
            r == (self.remaps@.len() == 0),
    {
        self.remaps.len() == 0
    }
}

/// Whether the field names an account: it is not blank, and no comment.
pub open spec fn is_account_name(name: Seq<char>) -> bool {
    name.len() > 0 && name[0] != '#'
}

/// The account in a line of `/etc/passwd`, unless the line is malformed.
pub open spec fn passwd_in_line(line: Seq<char>) -> Option<PasswdEntryView> {
    let f = split(line, ':');
    if f.len() >= 4 && is_account_name(trim(f[0])) {
        match (
            parse_number(trim(f[2]), u32::MAX as nat),
            parse_number(trim(f[3]), u32::MAX as nat),
        ) {
            (Some(uid), Some(gid)) => Some(
                PasswdEntryView { name: trim(f[0]), uid: uid as u32, gid: gid as u32 },
            ),
            _ => None,
        }
    } else {
        None
    }
}

/// The group in a line of `/etc/group`, unless the line is malformed.
pub open spec fn group_in_line(line: Seq<char>) -> Option<GroupEntryView> {
    let f = split(line, ':');
    if f.len() >= 3 && is_account_name(trim(f[0])) {
        match parse_number(trim(f[2]), u32::MAX as nat) {
            Some(gid) => Some(GroupEntryView { name: trim(f[0]), gid: gid as u32 }),
            None => None,
        }
    } else {
        None
    }
}

/// The accounts in the lines, in order.
pub open spec fn passwd_in_lines(ls: Seq<Seq<char>>) -> Seq<PasswdEntryView>
    decreases ls.len(),
{
    if ls.len() == 0 {
        Seq::empty()
    } else {
        match passwd_in_line(ls.last()) {
            Some(e) => passwd_in_lines(ls.drop_last()).push(e),
            None => passwd_in_lines(ls.drop_last()),
        }
    }
}

/// The groups in the lines, in order.
pub open spec fn groups_in_lines(ls: Seq<Seq<char>>) -> Seq<GroupEntryView>
    decreases ls.len(),
{
    if ls.len() == 0 {
        Seq::empty()
    } else {
        match group_in_line(ls.last()) {
            Some(e) => groups_in_lines(ls.drop_last()).push(e),
            None => groups_in_lines(ls.drop_last()),
        }
    }
}

/// Whether the field names an account.
fn names_account(name: &str) -> (r: bool)
    ensures
        r == is_account_name(name@),
{
    !name.is_empty() && name.get_char(0) != '#'
}

/// The account in a line of `/etc/passwd`.
fn parse_passwd_line(line: &str) -> (r: Option<PasswdEntry>)
    ensures
        r.deep_view() == passwd_in_line(line@),
{
    let f: Vec<String> = split_at(line, ':');
    let ghost v = split(line@, ':');
    assert(forall|k: int| 0 <= k < v.len() ==> v[k] == f@[k]@);
    if f.len() < 4 {
        return None;
    }
    let name: String = trimmed(f[0].as_str());
    if !names_account(name.as_str()) {
        return None;
    }
    match (parse_u32(trimmed(f[2].as_str()).as_str()), parse_u32(trimmed(f[3].as_str()).as_str())) {
        (Some(uid), Some(gid)) => Some(PasswdEntry { name, uid, gid }),
        _ => None,
    }
}

/// The group in a line of `/etc/group`.
fn parse_group_line(line: &str) -> (r: Option<GroupEntry>)
    ensures
        r.deep_view() == group_in_line(line@),
{
    let f: Vec<String> = split_at(line, ':');
    let ghost v = split(line@, ':');
    assert(forall|k: int| 0 <= k < v.len() ==> v[k] == f@[k]@);
    if f.len() < 3 {
        return None;
    }
    let name: String = trimmed(f[0].as_str());
    if !names_account(name.as_str()) {
        return None;
    }
    match parse_u32(trimmed(f[2].as_str()).as_str()) {
        Some(gid) => Some(GroupEntry { name, gid }),
        None => None,
    }
}

/// The accounts in the text of `/etc/passwd`. Malformed lines are passed over.
pub fn parse_passwd(content: &str) -> (r: Vec<PasswdEntry>)
    ensures
        r.deep_view() == passwd_in_lines(lines(content@)),
{
    let ls: Vec<String> = lines_of(content);
    let ghost all = ls.deep_view();
    let mut r: Vec<PasswdEntry> = Vec::new();
    let mut i: usize = 0;
    assert(r.deep_view() =~= passwd_in_lines(all.take(0)));
    while i < ls.len()
        invariant
            all == ls.deep_view(),
            i <= ls@.len(),
            r.deep_view() == passwd_in_lines(all.take(i as int)),
        decreases ls@.len() - i,
    {
        proof {
            assert(all[i as int] == ls@[i as int]@);
            assert(all.take(i + 1).drop_last() =~= all.take(i as int));
        }
        let ghost before = r.deep_view();
        match parse_passwd_line(ls[i].as_str()) {
            Some(e) => {
                r.push(e);
                assert(r.deep_view() =~= before.push(e.deep_view()));
            },
            None => {},
        }
        i = i + 1;
    }
    assert(all.take(i as int) =~= all);
    r
}

/// The groups in the text of `/etc/group`. Malformed lines are passed over.
pub fn parse_group(content: &str) -> (r: Vec<GroupEntry>)
    ensures
        r.deep_view() == groups_in_lines(lines(content@)),
{
    let ls: Vec<String> = lines_of(content);
    let ghost all = ls.deep_view();
    let mut r: Vec<GroupEntry> = Vec::new();
    let mut i: usize = 0;
    assert(r.deep_view() =~= groups_in_lines(all.take(0)));
    while i < ls.len()
        invariant
            all == ls.deep_view(),
            i <= ls@.len(),
            r.deep_view() == groups_in_lines(all.take(i as int)),
        decreases ls@.len() - i,
    {
        proof {
            assert(all[i as int] == ls@[i as int]@);
            assert(all.take(i + 1).drop_last() =~= all.take(i as int));
        }
        let ghost before = r.deep_view();
        match parse_group_line(ls[i].as_str()) {
            Some(e) => {
                r.push(e);
                assert(r.deep_view() =~= before.push(e.deep_view()));
            },
            None => {},
        }
        i = i + 1;
    }
    assert(all.take(i as int) =~= all);
    r
}

/// The names and uids of the accounts.
pub open spec fn uids(t: Seq<PasswdEntryView>) -> Seq<(Seq<char>, u32)> {
    t.map_values(|e: PasswdEntryView| (e.name, e.uid))
}

/// The names and gids of the groups.
pub open spec fn gids(t: Seq<GroupEntryView>) -> Seq<(Seq<char>, u32)> {
    t.map_values(|e: GroupEntryView| (e.name, e.gid))
}

/// The names in the table.
pub open spec fn names_in(t: Seq<(Seq<char>, u32)>) -> Seq<Seq<char>> {
    t.map_values(|e: (Seq<char>, u32)| e.0)
}

/// The id of the account in the table. The last line with the name counts.
pub open spec fn id_of(t: Seq<(Seq<char>, u32)>, name: Seq<char>) -> Option<u32>
    decreases t.len(),
{
    if t.len() == 0 {
        None
    } else if t.last().0 == name {
        Some(t.last().1)
    } else {
        id_of(t.drop_last(), name)
    }
}

/// Whether both ids belong to the system, and neither to root.
pub open spec fn in_system_range(old_id: u32, new_id: u32) -> bool {
    old_id != 0 && new_id != 0 && old_id < SYSTEM_ID_LIMIT && new_id < SYSTEM_ID_LIMIT
}

/// The system accounts among `names` whose ids differ between the tables.
pub open spec fn remaps_among(
    kind: IdKind,
    names: Seq<Seq<char>>,
    source: Seq<(Seq<char>, u32)>,
    target: Seq<(Seq<char>, u32)>,
) -> Seq<RemapEntryView>
    decreases names.len(),
{
    if names.len() == 0 {
        Seq::empty()
    } else {
        let rest = remaps_among(kind, names.drop_last(), source, target);
        let name = names.last();
        match (id_of(source, name), id_of(target, name)) {
            (Some(old_id), Some(new_id)) => if old_id != new_id && in_system_range(old_id, new_id) {
                rest.push(RemapEntryView { name, kind, old_id, new_id })
            } else {
                rest
            },
            _ => rest,
        }
    }
}

/// The system accounts that both tables have under different ids, in the order
/// of their names.
pub open spec fn diverging(
    kind: IdKind,
    source: Seq<(Seq<char>, u32)>,
    target: Seq<(Seq<char>, u32)>,
) -> Seq<RemapEntryView> {
    remaps_among(kind, sorted_set(names_in(source)), source, target)
}

/// Whether the name counts as one-sided: `b` lacks it, or has it under another
/// id and the two are not both of the system, so that it is not renumbered.
pub open spec fn is_one_sided(
    a: Seq<(Seq<char>, u32)>,
    b: Seq<(Seq<char>, u32)>,
    name: Seq<char>,
) -> bool {
    match (id_of(a, name), id_of(b, name)) {
        (_, None) => true,
        (Some(x), Some(y)) => x != y && !in_system_range(x, y),
        (None, Some(_)) => false,
    }
}

/// The one-sided names among `names`.
pub open spec fn one_sided_among(
    names: Seq<Seq<char>>,
    a: Seq<(Seq<char>, u32)>,
    b: Seq<(Seq<char>, u32)>,
) -> Seq<Seq<char>>
    decreases names.len(),
{
    if names.len() == 0 {
        Seq::empty()
    } else if is_one_sided(a, b, names.last()) {
        one_sided_among(names.drop_last(), a, b).push(names.last())
    } else {
        one_sided_among(names.drop_last(), a, b)
    }
}

/// The names of `a` that `b` lacks, or has under another id that is left as it
/// is.
pub open spec fn one_sided(a: Seq<(Seq<char>, u32)>, b: Seq<(Seq<char>, u32)>) -> Seq<Seq<char>> {
    one_sided_among(names_in(a), a, b)
}

/// The ids in the table.
pub open spec fn ids_in(t: Seq<(Seq<char>, u32)>) -> Seq<u32> {
    t.map_values(|e: (Seq<char>, u32)| e.1)
}

/// The first id from `from` on that is not used.
pub open spec fn next_free(used: Seq<u32>, from: int) -> int
    decreases u32::MAX - from,
{
    if 0 <= from < u32::MAX && used.contains(from as u32) {
        next_free(used, from + 1)
    } else {
        from
    }
}

/// The first `n` ids from [`SCRATCH_START`] on that are not used.
pub open spec fn scratch_ids(used: Seq<u32>, n: nat) -> Seq<int>
    decreases n,
{
    if n == 0 {
        Seq::empty()
    } else {
        let prev = scratch_ids(used, (n - 1) as nat);
        prev.push(
            next_free(
                used,
                if n == 1 {
                    SCRATCH_START as int
                } else {
                    prev.last() + 1
                },
            ),
        )
    }
}

/// The passes that take each account's files to its scratch id.
pub open spec fn to_scratch(remaps: Seq<RemapEntryView>, scratch: Seq<int>) -> Seq<RemapStep> {
    Seq::new(
        remaps.len(),
        |i: int|
            RemapStep { kind: remaps[i].kind, from: remaps[i].old_id, to: scratch[i] as u32 },
    )
}

/// The passes that take each account's files from its scratch id to its final
/// one.
pub open spec fn from_scratch(remaps: Seq<RemapEntryView>, scratch: Seq<int>) -> Seq<RemapStep> {
    Seq::new(
        remaps.len(),
        |i: int|
            RemapStep { kind: remaps[i].kind, from: scratch[i] as u32, to: remaps[i].new_id },
    )
}

/// The passes that carry out the renumberings: all to their scratch ids, then
/// all to their final ones.
pub open spec fn steps_of(remaps: Seq<RemapEntryView>, scratch: Seq<int>) -> Seq<RemapStep> {
    to_scratch(remaps, scratch) + from_scratch(remaps, scratch)
}

/// The primary groups of the accounts.
pub open spec fn primary_gids(t: Seq<PasswdEntryView>) -> Seq<u32> {
    t.map_values(|e: PasswdEntryView| e.gid)
}

/// Every id that either side uses, for users and for groups: the primary group
/// of an account may have no line of its own.
pub open spec fn used_ids(
    source_passwd: Seq<PasswdEntryView>,
    source_group: Seq<GroupEntryView>,
    target_passwd: Seq<PasswdEntryView>,
    target_group: Seq<GroupEntryView>,
) -> Seq<u32> {
    ids_in(uids(source_passwd)) + primary_gids(source_passwd) + ids_in(uids(target_passwd))
        + primary_gids(target_passwd) + ids_in(gids(source_group)) + ids_in(gids(target_group))
}

/// Whether the ids above the scratch range are enough for tables of the given
/// lengths, whatever ids they hold.
pub open spec fn room_for(
    source_passwd: nat,
    source_group: nat,
    target_passwd: nat,
    target_group: nat,
) -> bool {
    SCRATCH_START + 3 * source_passwd + 2 * source_group + 2 * target_passwd + target_group
        <= u32::MAX
}

/// Whether the ids above the scratch range are enough for the tables.
pub fn has_room(
    source_passwd: &[PasswdEntry],
    source_group: &[GroupEntry],
    target_passwd: &[PasswdEntry],
    target_group: &[GroupEntry],
) -> (r: bool)
    ensures
        r == room_for(
            source_passwd@.len(),
            source_group@.len(),
            target_passwd@.len(),
            target_group@.len(),
        ),
{
    let limit: u64 = u32::MAX as u64;
    let sp: u64 = source_passwd.len() as u64;
    let sg: u64 = source_group.len() as u64;
    let tp: u64 = target_passwd.len() as u64;
    let tg: u64 = target_group.len() as u64;
    sp <= limit && sg <= limit && tp <= limit && tg <= limit && SCRATCH_START as u64 + 3 * sp + 2
        * sg + 2 * tp + tg <= limit
}

/// The renumberings of users and, behind them, of groups.
pub open spec fn remaps_of(
    source_passwd: Seq<PasswdEntryView>,
    source_group: Seq<GroupEntryView>,
    target_passwd: Seq<PasswdEntryView>,
    target_group: Seq<GroupEntryView>,
) -> Seq<RemapEntryView> {
    diverging(IdKind::Uid, uids(source_passwd), uids(target_passwd)) + diverging(
        IdKind::Gid,
        gids(source_group),
        gids(target_group),
    )
}

/// The names and uids of the accounts.
fn uid_table(t: &[PasswdEntry]) -> (r: Vec<(String, u32)>)
    ensures
        r.deep_view() == uids(t.deep_view()),
{
    let mut r: Vec<(String, u32)> = Vec::new();
    let mut i: usize = 0;
    while i < t.len()
        invariant
            i <= t@.len(),
            r@.len() == i,
            forall|k: int|
                0 <= k < i ==> (#[trigger] r@[k]).0@ == t@[k].name@ && r@[k].1 == t@[k].uid,
        decreases t@.len() - i,
    {
        r.push((t[i].name.clone(), t[i].uid));
        i = i + 1;
    }
    assert(r.deep_view() =~= uids(t.deep_view()));
    r
}

/// The names and gids of the groups.
fn gid_table(t: &[GroupEntry]) -> (r: Vec<(String, u32)>)
    ensures
        r.deep_view() == gids(t.deep_view()),
{
    let mut r: Vec<(String, u32)> = Vec::new();
    let mut i: usize = 0;
    while i < t.len()
        invariant
            i <= t@.len(),
            r@.len() == i,
            forall|k: int|
                0 <= k < i ==> (#[trigger] r@[k]).0@ == t@[k].name@ && r@[k].1 == t@[k].gid,
        decreases t@.len() - i,
    {
        r.push((t[i].name.clone(), t[i].gid));
        i = i + 1;
    }
    assert(r.deep_view() =~= gids(t.deep_view()));
    r
}

/// The id of the account in the table.
fn find_id(t: &[(String, u32)], name: &str) -> (r: Option<u32>)
    ensures
        r == id_of(t.deep_view(), name@),
{
    let ghost all = t.deep_view();
    let mut i: usize = t.len();
    assert(all.take(i as int) =~= all);
    while i > 0
        invariant
            all == t.deep_view(),
            i <= t@.len(),
            id_of(all, name@) == id_of(all.take(i as int), name@),
        decreases i,
    {
        i = i - 1;
        proof {
            assert(all.take(i + 1).last() == t@[i as int].deep_view());
            assert(all.take(i + 1).drop_last() =~= all.take(i as int));
        }
        if same(t[i].0.as_str(), name) {
            return Some(t[i].1);
        }
    }
    None
}

/// The names in the table.
fn table_names(t: &[(String, u32)]) -> (r: Vec<String>)
    ensures
        r.deep_view() == names_in(t.deep_view()),
{
    let mut r: Vec<String> = Vec::new();
    let mut i: usize = 0;
    while i < t.len()
        invariant
            i <= t@.len(),
            r@.len() == i,
            forall|k: int| 0 <= k < i ==> #[trigger] r@[k]@ == t@[k].0@,
        decreases t@.len() - i,
    {
        r.push(t[i].0.clone());
        i = i + 1;
    }
    assert(r.deep_view() =~= names_in(t.deep_view()));
    r
}

/// Whether both ids belong to the system, and neither to root.
fn both_system(old_id: u32, new_id: u32) -> (r: bool)
    ensures
        r == in_system_range(old_id, new_id),
{
    old_id != 0 && new_id != 0 && old_id < SYSTEM_ID_LIMIT && new_id < SYSTEM_ID_LIMIT
}

/// Adds the accounts that diverge between the tables to `out`.
fn diff_by_name(
    kind: IdKind,
    source: &[(String, u32)],
    target: &[(String, u32)],
    out: &mut Vec<RemapEntry>,
)
    ensures
        final(out).deep_view() == old(out).deep_view() + diverging(
            kind,
            source.deep_view(),
            target.deep_view(),
        ),
{
    let listed: Vec<String> = table_names(source);
    let names: Vec<String> = sort_unique(listed.as_slice());
    let ghost all = names.deep_view();
    let ghost s = source.deep_view();
    let ghost t = target.deep_view();
    let ghost first = out.deep_view();
    let mut i: usize = 0;
    assert(out.deep_view() =~= first + remaps_among(kind, all.take(0), s, t));
    while i < names.len()
        invariant
            all == names.deep_view(),
            s == source.deep_view(),
            t == target.deep_view(),
            i <= names@.len(),
            out.deep_view() == first + remaps_among(kind, all.take(i as int), s, t),
        decreases names@.len() - i,
    {
        proof {
            assert(all[i as int] == names@[i as int]@);
            assert(all.take(i + 1).drop_last() =~= all.take(i as int));
            assert(all.take(i + 1).last() == all[i as int]);
        }
        let ghost before = out.deep_view();
        match (find_id(source, names[i].as_str()), find_id(target, names[i].as_str())) {
            (Some(old_id), Some(new_id)) => {
                if old_id != new_id && both_system(old_id, new_id) {
                    let e: RemapEntry = RemapEntry { name: names[i].clone(), kind, old_id, new_id };
                    out.push(e);
                    assert(out.deep_view() =~= before.push(e.deep_view()));
                    assert(before.push(e.deep_view()) =~= first + remaps_among(
                        kind,
                        all.take(i as int),
                        s,
                        t,
                    ).push(e.deep_view()));
                }
            },
            _ => {},
        }
        i = i + 1;
    }
    assert(all.take(i as int) =~= all);
}

/// Whether the name counts as one-sided.
fn counts_as_one_sided(a: &[(String, u32)], b: &[(String, u32)], name: &str) -> (r: bool)
    ensures
        r == is_one_sided(a.deep_view(), b.deep_view(), name@),
{
    match (find_id(a, name), find_id(b, name)) {
        (_, None) => true,
        (Some(x), Some(y)) => x != y && !both_system(x, y),
        (None, Some(_)) => false,
    }
}

/// Adds the one-sided names of `a` to `out`.
fn add_one_sided(a: &[(String, u32)], b: &[(String, u32)], out: &mut Vec<String>)
    ensures
        final(out).deep_view() == old(out).deep_view() + one_sided(a.deep_view(), b.deep_view()),
{
    let names: Vec<String> = table_names(a);
    let ghost all = names.deep_view();
    let ghost s = a.deep_view();
    let ghost t = b.deep_view();
    let ghost first = out.deep_view();
    let mut i: usize = 0;
    assert(out.deep_view() =~= first + one_sided_among(all.take(0), s, t));
    while i < names.len()
        invariant
            all == names.deep_view(),
            s == a.deep_view(),
            t == b.deep_view(),
            i <= names@.len(),
            out.deep_view() == first + one_sided_among(all.take(i as int), s, t),
        decreases names@.len() - i,
    {
        proof {
            assert(all[i as int] == names@[i as int]@);
            assert(all.take(i + 1).drop_last() =~= all.take(i as int));
            assert(all.take(i + 1).last() == all[i as int]);
        }
        let ghost before = out.deep_view();
        let ghost listed = one_sided_among(all.take(i as int), s, t);
        if counts_as_one_sided(a, b, names[i].as_str()) {
            out.push(names[i].clone());
            assert(out.deep_view() =~= before.push(all[i as int]));
            assert(before.push(all[i as int]) =~= first + listed.push(all[i as int]));
        }
        i = i + 1;
    }
    assert(all.take(i as int) =~= all);
}

/// Whether the id is in the list.
fn id_in(list: &[u32], id: u32) -> (r: bool)
    ensures
        r == list@.contains(id),
{
    let mut i: usize = 0;
    while i < list.len()
        invariant
            i <= list@.len(),
            forall|k: int| 0 <= k < i ==> list@[k] != id,
        decreases list@.len() - i,
    {
        if list[i] == id {
            return true;
        }
        i = i + 1;
    }
    false
}

/// Adds the ids of the table to `out`.
fn add_ids(t: &[(String, u32)], out: &mut Vec<u32>)
    ensures
        final(out)@ == old(out)@ + ids_in(t.deep_view()),
{
    let ghost first = out@;
    let mut i: usize = 0;
    assert(out@ =~= first + ids_in(t.deep_view().take(0)));
    while i < t.len()
        invariant
            i <= t@.len(),
            out@ == first + ids_in(t.deep_view().take(i as int)),
        decreases t@.len() - i,
    {
        out.push(t[i].1);
        assert(ids_in(t.deep_view().take(i + 1)) =~= ids_in(t.deep_view().take(i as int)).push(
            t@[i as int].1,
        ));
        assert((first + ids_in(t.deep_view().take(i as int))).push(t@[i as int].1) =~= first
            + ids_in(t.deep_view().take(i as int)).push(t@[i as int].1));
        i = i + 1;
    }
    assert(t.deep_view().take(i as int) =~= t.deep_view());
}

/// Adds the primary groups of the accounts to `out`.
fn add_primary_gids(t: &[PasswdEntry], out: &mut Vec<u32>)
    ensures
        final(out)@ == old(out)@ + primary_gids(t.deep_view()),
{
    let ghost first = out@;
    let ghost all = primary_gids(t.deep_view());
    let mut i: usize = 0;
    assert(out@ =~= first + all.take(0));
    while i < t.len()
        invariant
            all == primary_gids(t.deep_view()),
            i <= t@.len(),
            out@ == first + all.take(i as int),
        decreases t@.len() - i,
    {
        out.push(t[i].gid);
        assert(all[i as int] == t@[i as int].gid);
        assert((first + all.take(i as int)).push(all[i as int]) =~= first + all.take(i + 1));
        i = i + 1;
    }
    assert(all.take(i as int) =~= all);
}

/// The used ids in a range of ids.
spec fn used_between(used: Seq<u32>, lo: int, hi: int) -> Set<u32> {
    used.to_set().filter(|x: u32| lo <= x < hi)
}

/// No more ids are used in a range than are listed.
proof fn lemma_used_between(used: Seq<u32>, lo: int, hi: int)
    ensures
        used_between(used, lo, hi).finite(),
        used_between(used, lo, hi).len() <= used.len(),
{
    broadcast use vstd::seq_lib::group_seq_properties;

    used.lemma_cardinality_of_set();
    let f = |x: u32| lo <= x < hi;
    vstd::set_lib::lemma_len_subset(used.to_set().filter(f), used.to_set());
}

/// Passing a used id adds one to those passed.
proof fn lemma_used_between_step(used: Seq<u32>, lo: int, hi: int)
    requires
        lo <= hi <= u32::MAX,
        0 <= lo,
    ensures
        used_between(used, lo, hi + 1).len() == used_between(used, lo, hi).len() + (
        if used.contains(hi as u32) {
            1int
        } else {
            0int
        }),
{
    lemma_used_between(used, lo, hi);
    let a = used_between(used, lo, hi);
    let b = used_between(used, lo, hi + 1);
    if used.contains(hi as u32) {
        assert(used.to_set().contains(hi as u32));
        assert(b =~= a.insert(hi as u32));
        assert(!a.contains(hi as u32));
    } else {
        assert(b =~= a);
    }
}

/// The first ids from [`SCRATCH_START`] on that are not used, one for each of
/// the `n` accounts.
fn pick_scratch(n: usize, used: &[u32]) -> (r: Vec<u32>)
    requires
        SCRATCH_START + n + used@.len() <= u32::MAX,
    ensures
        r@.len() == n,
        forall|k: int| 0 <= k < n ==> #[trigger] r@[k] == scratch_ids(used@, n as nat)[k],
{
    let mut r: Vec<u32> = Vec::new();
    let mut next: u32 = SCRATCH_START;
    let ghost lo = SCRATCH_START as int;
    proof {
        lemma_used_between(used@, lo, lo);
        assert(used_between(used@, lo, lo) =~= Set::empty());
    }
    while r.len() < n
        invariant
            lo == SCRATCH_START,
            SCRATCH_START + n + used@.len() <= u32::MAX,
            r@.len() <= n,
            next - lo == r@.len() + used_between(used@, lo, next as int).len(),
            lo <= next,
            r@.len() > 0 ==> next == scratch_ids(used@, r@.len()).last() + 1,
            r@.len() == 0 ==> next == SCRATCH_START,
            scratch_ids(used@, r@.len()).len() == r@.len(),
            forall|k: int| 0 <= k < r@.len() ==> #[trigger] r@[k] == scratch_ids(used@, r@.len())[k],
        decreases n - r@.len(),
    {
        let ghost start = next as int;
        proof {
            lemma_used_between(used@, lo, next as int);
        }
        while id_in(used, next)
            invariant
                lo == SCRATCH_START,
                SCRATCH_START + n + used@.len() <= u32::MAX,
                r@.len() < n,
                next - lo == r@.len() + used_between(used@, lo, next as int).len(),
                lo <= next,
                start <= next < u32::MAX,
                next_free(used@, start) == next_free(used@, next as int),
            decreases u32::MAX - next,
        {
            proof {
                lemma_used_between_step(used@, lo, next as int);
                lemma_used_between(used@, lo, next + 1);
            }
            next = next + 1;
        }
        proof {
            lemma_used_between_step(used@, lo, next as int);
            assert(next_free(used@, start) == next);
        }
        let ghost prev = scratch_ids(used@, r@.len());
        r.push(next);
        assert(scratch_ids(used@, r@.len()) =~= prev.push(next as int));
        next = next + 1;
    }
    r
}

/// The passes that carry out the renumberings.
fn build_steps(remaps: &[RemapEntry], used: &[u32]) -> (r: Vec<RemapStep>)
    requires
        SCRATCH_START + remaps@.len() + used@.len() <= u32::MAX,
    ensures
        r@ == steps_of(remaps.deep_view(), scratch_ids(used@, remaps@.len())),
{
    let n: usize = remaps.len();
    let scratch: Vec<u32> = pick_scratch(n, used);
    let mut r: Vec<RemapStep> = Vec::new();
    let ghost target = steps_of(remaps.deep_view(), scratch_ids(used@, remaps@.len()));
    let mut i: usize = 0;
    while i < n
        invariant
            n == remaps@.len(),
            scratch@.len() == n,
            forall|k: int| 0 <= k < n ==> #[trigger] scratch@[k] == scratch_ids(used@, n as nat)[k],
            target == steps_of(remaps.deep_view(), scratch_ids(used@, n as nat)),
            i <= n,
            r@ == target.take(i as int),
        decreases n - i,
    {
        let step: RemapStep = RemapStep {
            kind: remaps[i].kind,
            from: remaps[i].old_id,
            to: scratch[i],
        };
        assert(target[i as int] == step);
        r.push(step);
        assert(r@ =~= target.take(i + 1));
        i = i + 1;
    }
    let mut j: usize = 0;
    while j < n
        invariant
            n == remaps@.len(),
            scratch@.len() == n,
            forall|k: int| 0 <= k < n ==> #[trigger] scratch@[k] == scratch_ids(used@, n as nat)[k],
            target == steps_of(remaps.deep_view(), scratch_ids(used@, n as nat)),
            j <= n,
            r@ == target.take(n + j),
        decreases n - j,
    {
        let step: RemapStep = RemapStep {
            kind: remaps[j].kind,
            from: scratch[j],
            to: remaps[j].new_id,
        };
        assert(target[n + j] == step);
        r.push(step);
        assert(r@ =~= target.take(n + j + 1));
        j = j + 1;
    }
    assert(r@ =~= target);
    r
}


/// Sorting adds no name.
proof fn lemma_sorted_set_len(s: Seq<Seq<char>>)
    ensures
        sorted_set(s).len() <= s.len(),
    decreases s.len(),
{
    if s.len() > 0 {
        lemma_sorted_set_len(s.drop_last());
        lemma_insert_len(sorted_set(s.drop_last()), s.last());
    }
}

/// Inserting a name adds at most one.
proof fn lemma_insert_len(s: Seq<Seq<char>>, x: Seq<char>)
    ensures
        crate::text::order::insert_text(s, x).len() <= s.len() + 1,
    decreases s.len(),
{
    if s.len() > 0 {
        lemma_insert_len(s.drop_last(), x);
    }
}

/// There is at most one renumbering for each name.
proof fn lemma_remaps_len(
    kind: IdKind,
    names: Seq<Seq<char>>,
    source: Seq<(Seq<char>, u32)>,
    target: Seq<(Seq<char>, u32)>,
)
    ensures
        remaps_among(kind, names, source, target).len() <= names.len(),
    decreases names.len(),
{
    if names.len() > 0 {
        lemma_remaps_len(kind, names.drop_last(), source, target);
    }
}

/// There are at most as many renumberings as accounts on the source.
proof fn lemma_diverging_len(
    kind: IdKind,
    source: Seq<(Seq<char>, u32)>,
    target: Seq<(Seq<char>, u32)>,
)
    ensures
        diverging(kind, source, target).len() <= source.len(),
{
    lemma_sorted_set_len(names_in(source));
    lemma_remaps_len(kind, sorted_set(names_in(source)), source, target);
}

/// The plan that makes the source's files belong to the target's accounts.
///
/// The tables must be small enough that scratch ids can be found, which
/// [`has_room`] tells.
pub fn plan_remap(
    source_passwd: &[PasswdEntry],
    source_group: &[GroupEntry],
    target_passwd: &[PasswdEntry],
    target_group: &[GroupEntry],
) -> (r: RemapPlan)
    requires
        room_for(
            source_passwd@.len(),
            source_group@.len(),
            target_passwd@.len(),
            target_group@.len(),
        ),
    ensures
        r.remaps.deep_view() == remaps_of(
            source_passwd.deep_view(),
            source_group.deep_view(),
            target_passwd.deep_view(),
            target_group.deep_view(),
        ),
        r.source_only.deep_view() == sorted_set(
            one_sided(uids(source_passwd.deep_view()), uids(target_passwd.deep_view()))
                + one_sided(gids(source_group.deep_view()), gids(target_group.deep_view())),
        ),
        r.target_only.deep_view() == sorted_set(
            one_sided(uids(target_passwd.deep_view()), uids(source_passwd.deep_view()))
                + one_sided(gids(target_group.deep_view()), gids(source_group.deep_view())),
        ),
        r.steps@ == steps_of(
            r.remaps.deep_view(),
            scratch_ids(
                used_ids(
                    source_passwd.deep_view(),
                    source_group.deep_view(),
                    target_passwd.deep_view(),
                    target_group.deep_view(),
                ),
                r.remaps@.len(),
            ),
        ),
{
    let su: Vec<(String, u32)> = uid_table(source_passwd);
    let sg: Vec<(String, u32)> = gid_table(source_group);
    let tu: Vec<(String, u32)> = uid_table(target_passwd);
    let tg: Vec<(String, u32)> = gid_table(target_group);

    let mut used: Vec<u32> = Vec::new();
    add_ids(su.as_slice(), &mut used);
    add_primary_gids(source_passwd, &mut used);
    add_ids(tu.as_slice(), &mut used);
    add_primary_gids(target_passwd, &mut used);
    add_ids(sg.as_slice(), &mut used);
    add_ids(tg.as_slice(), &mut used);
    let ghost all_used = used_ids(
        source_passwd.deep_view(),
        source_group.deep_view(),
        target_passwd.deep_view(),
        target_group.deep_view(),
    );
    assert(used@ =~= all_used);

    let mut remaps: Vec<RemapEntry> = Vec::new();
    diff_by_name(IdKind::Uid, su.as_slice(), tu.as_slice(), &mut remaps);
    diff_by_name(IdKind::Gid, sg.as_slice(), tg.as_slice(), &mut remaps);
    assert(remaps.deep_view() =~= remaps_of(
        source_passwd.deep_view(),
        source_group.deep_view(),
        target_passwd.deep_view(),
        target_group.deep_view(),
    ));

    let mut only_source: Vec<String> = Vec::new();
    add_one_sided(su.as_slice(), tu.as_slice(), &mut only_source);
    add_one_sided(sg.as_slice(), tg.as_slice(), &mut only_source);
    assert(only_source.deep_view() =~= one_sided(su.deep_view(), tu.deep_view()) + one_sided(
        sg.deep_view(),
        tg.deep_view(),
    ));
    let mut only_target: Vec<String> = Vec::new();
    add_one_sided(tu.as_slice(), su.as_slice(), &mut only_target);
    add_one_sided(tg.as_slice(), sg.as_slice(), &mut only_target);
    assert(only_target.deep_view() =~= one_sided(tu.deep_view(), su.deep_view()) + one_sided(
        tg.deep_view(),
        sg.deep_view(),
    ));

    proof {
        lemma_diverging_len(IdKind::Uid, su.deep_view(), tu.deep_view());
        lemma_diverging_len(IdKind::Gid, sg.deep_view(), tg.deep_view());
        assert(remaps@.len() == remaps.deep_view().len());
    }
    let steps: Vec<RemapStep> = build_steps(remaps.as_slice(), used.as_slice());
    RemapPlan {
        remaps,
        source_only: sort_unique(only_source.as_slice()),
        target_only: sort_unique(only_target.as_slice()),
        steps,
    }
}

/// Whether one of the accounts has the name.
pub open spec fn passwd_has(t: Seq<PasswdEntryView>, name: Seq<char>) -> bool {
    exists|i: int| 0 <= i < t.len() && (#[trigger] t[i]).name == name
}

/// Whether one of the groups has the name.
pub open spec fn group_has(t: Seq<GroupEntryView>, name: Seq<char>) -> bool {
    exists|i: int| 0 <= i < t.len() && (#[trigger] t[i]).name == name
}

/// Whether the host lacks the user or group that the target declares.
pub open spec fn is_missing(
    e: SysusersEntryView,
    passwd: Seq<PasswdEntryView>,
    group: Seq<GroupEntryView>,
) -> bool {
    ||| e.kind == 'u' && !passwd_has(passwd, e.name)
    ||| e.kind == 'g' && !group_has(group, e.name)
}

/// The names of the declared accounts that the host lacks.
pub open spec fn missing_names(
    target: Seq<SysusersEntryView>,
    passwd: Seq<PasswdEntryView>,
    group: Seq<GroupEntryView>,
) -> Seq<Seq<char>>
    decreases target.len(),
{
    if target.len() == 0 {
        Seq::empty()
    } else if is_missing(target.last(), passwd, group) {
        missing_names(target.drop_last(), passwd, group).push(target.last().name)
    } else {
        missing_names(target.drop_last(), passwd, group)
    }
}

/// Whether one of the accounts has the name.
fn has_user(t: &[PasswdEntry], name: &str) -> (r: bool)
    ensures
        r == passwd_has(t.deep_view(), name@),
{
    let mut i: usize = 0;
    while i < t.len()
        invariant
            i <= t@.len(),
            forall|k: int| 0 <= k < i ==> (#[trigger] t.deep_view()[k]).name != name@,
        decreases t@.len() - i,
    {
        assert(t.deep_view()[i as int] == t@[i as int].deep_view());
        if same(t[i].name.as_str(), name) {
            return true;
        }
        i = i + 1;
    }
    false
}

/// Whether one of the groups has the name.
fn has_group(t: &[GroupEntry], name: &str) -> (r: bool)
    ensures
        r == group_has(t.deep_view(), name@),
{
    let mut i: usize = 0;
    while i < t.len()
        invariant
            i <= t@.len(),
            forall|k: int| 0 <= k < i ==> (#[trigger] t.deep_view()[k]).name != name@,
        decreases t@.len() - i,
    {
        assert(t.deep_view()[i as int] == t@[i as int].deep_view());
        if same(t[i].name.as_str(), name) {
            return true;
        }
        i = i + 1;
    }
    false
}

/// The accounts that the target's `sysusers.d` declares and the host lacks,
/// sorted, each once. A whole-file merge of `/etc` will not add them.
pub fn missing_target_sysusers(
    target_sysusers: &[SysusersEntry],
    host_passwd: &[PasswdEntry],
    host_group: &[GroupEntry],
) -> (r: Vec<String>)
    ensures
        r.deep_view() == sorted_set(
            missing_names(
                target_sysusers.deep_view(),
                host_passwd.deep_view(),
                host_group.deep_view(),
            ),
        ),
{
    let ghost all = target_sysusers.deep_view();
    let mut found: Vec<String> = Vec::new();
    let mut i: usize = 0;
    assert(found.deep_view() =~= missing_names(
        all.take(0),
        host_passwd.deep_view(),
        host_group.deep_view(),
    ));
    while i < target_sysusers.len()
        invariant
            all == target_sysusers.deep_view(),
            i <= target_sysusers@.len(),
            found.deep_view() == missing_names(
                all.take(i as int),
                host_passwd.deep_view(),
                host_group.deep_view(),
            ),
        decreases target_sysusers@.len() - i,
    {
        let e: &SysusersEntry = &target_sysusers[i];
        proof {
            assert(all.take(i + 1).drop_last() =~= all.take(i as int));
            assert(all.take(i + 1).last() == e.deep_view());
        }
        let ghost before = found.deep_view();
        let missing: bool = if e.kind == 'u' {
            !has_user(host_passwd, e.name.as_str())
        } else if e.kind == 'g' {
            !has_group(host_group, e.name.as_str())
        } else {
            false
        };
        if missing {
            found.push(e.name.clone());
            assert(found.deep_view() =~= before.push(e.name@));
        }
        i = i + 1;
    }
    assert(all.take(i as int) =~= all);
    sort_unique(found.as_slice())
}

/// The line of the report on one renumbering.
pub open spec fn remap_line(e: RemapEntryView) -> Seq<char> {
    "  "@ + pad_right(e.name, 24) + " "@ + (if e.kind == IdKind::Uid {
        "uid"@
    } else {
        "gid"@
    }) + " "@ + decimal(e.old_id as nat) + " -> "@ + decimal(e.new_id as nat) + "\n"@
}

/// The lines of the report on the renumberings.
pub open spec fn remap_lines(remaps: Seq<RemapEntryView>) -> Seq<char>
    decreases remaps.len(),
{
    if remaps.len() == 0 {
        Seq::empty()
    } else {
        remap_lines(remaps.drop_last()) + remap_line(remaps.last())
    }
}

/// The report's first part: what diverges and what is done about it.
pub open spec fn report_head(remaps: Seq<RemapEntryView>, steps: nat) -> Seq<char> {
    let title = "=== Cross-base UID/GID remap report ===\n"@;
    if remaps.len() == 0 {
        title + "No shared system accounts diverge — no remapping needed.\n"@
    } else {
        title + "Diverging system accounts (renumbered during the re-base):\n"@ + remap_lines(
            remaps,
        ) + decimal(steps) + " chown pass(es) will run over /var and preserved /etc.\n"@
    }
}

/// A line of the report that lists names, where there are any.
pub open spec fn names_line(title: Seq<char>, names: Seq<Seq<char>>) -> Seq<char> {
    if names.len() == 0 {
        Seq::empty()
    } else {
        title + join(names, ", "@) + "\n"@
    }
}

/// The report on a plan.
pub open spec fn report_of(
    remaps: Seq<RemapEntryView>,
    steps: nat,
    source_only: Seq<Seq<char>>,
    target_only: Seq<Seq<char>>,
) -> Seq<char> {
    report_head(remaps, steps) + names_line(
        "Source-only accounts carried verbatim: "@,
        source_only,
    ) + names_line("Target-only accounts (target defaults win): "@, target_only)
}

/// Adds the line of the report on one renumbering.
fn add_remap_line(out: &mut String, e: &RemapEntry)
    ensures
        final(out)@ == old(out)@ + remap_line(e.deep_view()),
{
    let mut line: String = "  ".to_owned();
    line.append(padded_right(e.name.as_str(), 24).as_str());
    line.append(" ");
    match e.kind {
        IdKind::Uid => line.append("uid"),
        IdKind::Gid => line.append("gid"),
    }
    line.append(" ");
    line.append(decimal_of(e.old_id as u64).as_str());
    line.append(" -> ");
    line.append(decimal_of(e.new_id as u64).as_str());
    line.append("\n");
    out.append(line.as_str());
}

/// Adds a line that lists names, where there are any.
fn add_names_line(out: &mut String, title: &str, names: &[String])
    ensures
        final(out)@ == old(out)@ + names_line(title@, names.deep_view()),
{
    if names.len() == 0 {
        assert(old(out)@ + Seq::<char>::empty() =~= old(out)@);
    } else {
        let mut line: String = title.to_owned();
        line.append(joined(names, ", ").as_str());
        line.append("\n");
        out.append(line.as_str());
    }
}

/// The report that is shown before anything is applied.
pub fn render_report(plan: &RemapPlan) -> (r: String)
    ensures
        r@ == report_of(
            plan.remaps.deep_view(),
            plan.steps@.len(),
            plan.source_only.deep_view(),
            plan.target_only.deep_view(),
        ),
{
    let mut out: String = "=== Cross-base UID/GID remap report ===\n".to_owned();
    if plan.is_empty() {
        out.append("No shared system accounts diverge — no remapping needed.\n");
    } else {
        out.append("Diverging system accounts (renumbered during the re-base):\n");
        let ghost start = out@;
        let ghost all = plan.remaps.deep_view();
        let mut i: usize = 0;
        assert(out@ =~= start + remap_lines(all.take(0)));
        while i < plan.remaps.len()
            invariant
                all == plan.remaps.deep_view(),
                i <= plan.remaps@.len(),
                out@ == start + remap_lines(all.take(i as int)),
            decreases plan.remaps@.len() - i,
        {
            add_remap_line(&mut out, &plan.remaps[i]);
            proof {
                assert(all.take(i + 1).drop_last() =~= all.take(i as int));
                assert(all.take(i + 1).last() == plan.remaps@[i as int].deep_view());
                let a = remap_lines(all.take(i as int));
                let b = remap_line(all[i as int]);
                assert((start + a) + b =~= start + (a + b));
            }
            i = i + 1;
        }
        assert(all.take(i as int) =~= all);
        out.append(decimal_of(plan.steps.len() as u64).as_str());
        out.append(" chown pass(es) will run over /var and preserved /etc.\n");
    }
    assert(out@ == report_head(plan.remaps.deep_view(), plan.steps@.len()));
    add_names_line(
        &mut out,
        "Source-only accounts carried verbatim: ",
        plan.source_only.as_slice(),
    );
    add_names_line(
        &mut out,
        "Target-only accounts (target defaults win): ",
        plan.target_only.as_slice(),
    );
    out
}

/// What a pass does to a file with the given owner: the uid and the gid to
/// set, or nothing.
pub open spec fn change_of(step: RemapStep, uid: u32, gid: u32) -> Option<
    (Option<u32>, Option<u32>),
> {
    match step.kind {
        IdKind::Uid => if uid == step.from {
            Some((Some(step.to), None))
        } else {
            None
        },
        IdKind::Gid => if gid == step.from {
            Some((None, Some(step.to)))
        } else {
            None
        },
    }
}

/// The uid and the gid that a pass sets on a file with the given owner, if it
/// touches the file at all.
pub fn apply_single_step(step: &RemapStep, uid: u32, gid: u32) -> (r: Option<
    (Option<u32>, Option<u32>),
>)
    ensures
        r == change_of(*step, uid, gid),
{
    match step.kind {
        IdKind::Uid => {
            if uid == step.from {
                Some((Some(step.to), None))
            } else {
                None
            }
        },
        IdKind::Gid => {
            if gid == step.from {
                Some((None, Some(step.to)))
            } else {
                None
            }
        },
    }
}

/// The trees of a staged deployment that a pass runs over.
#[derive(Debug, Clone, Copy, PartialEq, Eq, Structural)]
pub enum RemapTree {
    Var,
    Etc,
}

/// The trees of one pass: those that exist, `/var` first.
pub open spec fn trees(var_exists: bool, etc_exists: bool) -> Seq<RemapTree> {
    (if var_exists {
        seq![RemapTree::Var]
    } else {
        Seq::empty()
    }) + (if etc_exists {
        seq![RemapTree::Etc]
    } else {
        Seq::empty()
    })
}

/// Each pass over each tree, in the order of the passes.
pub open spec fn passes_of(steps: Seq<RemapStep>, ts: Seq<RemapTree>) -> Seq<(RemapStep, RemapTree)>
    decreases steps.len(),
{
    if steps.len() == 0 {
        Seq::empty()
    } else {
        passes_of(steps.drop_last(), ts) + ts.map_values(|t: RemapTree| (steps.last(), t))
    }
}

/// The passes to run over a staged deployment, in order. A plan without
/// renumberings runs none. How many files they updated, [`files_updated`]
/// tells.
pub fn apply_remap_plan(plan: &RemapPlan, var_exists: bool, etc_exists: bool) -> (r: Vec<
    (RemapStep, RemapTree),
>)
    ensures
        r@ == (if plan.remaps@.len() == 0 {
            Seq::empty()
        } else {
            passes_of(plan.steps@, trees(var_exists, etc_exists))
        }),
{
    let mut r: Vec<(RemapStep, RemapTree)> = Vec::new();
    if plan.is_empty() {
        return r;
    }
    let ghost ts = trees(var_exists, etc_exists);
    let mut i: usize = 0;
    while i < plan.steps.len()
        invariant
            ts == trees(var_exists, etc_exists),
            i <= plan.steps@.len(),
            r@ == passes_of(plan.steps@.take(i as int), ts),
        decreases plan.steps@.len() - i,
    {
        let step: RemapStep = plan.steps[i];
        let ghost before = r@;
        if var_exists {
            r.push((step, RemapTree::Var));
        }
        if etc_exists {
            r.push((step, RemapTree::Etc));
        }
        proof {
            assert(plan.steps@.take(i + 1).drop_last() =~= plan.steps@.take(i as int));
            assert(plan.steps@.take(i + 1).last() == step);
            assert(r@ =~= before + ts.map_values(|t: RemapTree| (step, t)));
        }
        i = i + 1;
    }
    assert(plan.steps@.take(i as int) =~= plan.steps@);
    r
}

/// The owner that a file with the owner `id` has after the pass.
pub open spec fn after_step(step: RemapStep, kind: IdKind, id: u32) -> u32 {
    if step.kind == kind && step.from == id {
        step.to
    } else {
        id
    }
}

/// The owner that a file with the owner `id` has after the passes.
pub open spec fn after_steps(steps: Seq<RemapStep>, kind: IdKind, id: u32) -> u32
    decreases steps.len(),
{
    if steps.len() == 0 {
        id
    } else {
        after_step(steps.last(), kind, after_steps(steps.drop_last(), kind, id))
    }
}

/// The owner, as uid and gid, that a file has after the passes.
pub open spec fn owner_after(steps: Seq<RemapStep>, owner: (u32, u32)) -> (u32, u32) {
    (after_steps(steps, IdKind::Uid, owner.0), after_steps(steps, IdKind::Gid, owner.1))
}

/// The owner of a file, as uid and gid, before the passes and after them.
#[derive(Debug, Clone, Copy, PartialEq, Eq)]
pub struct OwnerChange {
    pub before: (u32, u32),
    pub after: (u32, u32),
}

/// How many of the files have another owner than before.
pub open spec fn updated(files: Seq<OwnerChange>) -> nat
    decreases files.len(),
{
    if files.len() == 0 {
        0
    } else {
        updated(files.drop_last()) + if files.last().before != files.last().after {
            1nat
        } else {
            0nat
        }
    }
}

/// How many files the passes updated: each counts once, through however many
/// ids it went.
pub fn files_updated(files: &[OwnerChange]) -> (r: usize)
    ensures
        r == updated(files@),
{
    let mut r: usize = 0;
    let mut i: usize = 0;
    assert(files@.take(0) =~= Seq::<OwnerChange>::empty());
    while i < files.len()
        invariant
            i <= files@.len(),
            r == updated(files@.take(i as int)),
            r <= i,
        decreases files@.len() - i,
    {
        proof {
            assert(files@.take(i + 1).drop_last() =~= files@.take(i as int));
            assert(files@.take(i + 1).last() == files@[i as int]);
        }
        let f: OwnerChange = files[i];
        if f.before.0 != f.after.0 || f.before.1 != f.after.1 {
            r = r + 1;
        }
        i = i + 1;
    }
    assert(files@.take(i as int) =~= files@);
    r
}

/// What a pass sets on a file is what the file has after it.
pub proof fn law_single_step_sets_the_owner(step: RemapStep, uid: u32, gid: u32)
    ensures
        owner_after(seq![step], (uid, gid)) == match change_of(step, uid, gid) {
            Some((u, g)) => (
                if u is Some {
                    u->0
                } else {
                    uid
                },
                if g is Some {
                    g->0
                } else {
                    gid
                },
            ),
            None => (uid, gid),
        },
{
    assert(seq![step].drop_last() =~= Seq::<RemapStep>::empty());
    reveal_with_fuel(after_steps, 2);
}

/// The passes over one tree, in order.
pub open spec fn steps_over(
    passes: Seq<(RemapStep, RemapTree)>,
    tree: RemapTree,
) -> Seq<RemapStep>
    decreases passes.len(),
{
    if passes.len() == 0 {
        Seq::empty()
    } else if passes.last().1 == tree {
        steps_over(passes.drop_last(), tree).push(passes.last().0)
    } else {
        steps_over(passes.drop_last(), tree)
    }
}

/// The passes over one tree in two lists, one behind the other.
proof fn lemma_steps_over_concat(
    a: Seq<(RemapStep, RemapTree)>,
    b: Seq<(RemapStep, RemapTree)>,
    tree: RemapTree,
)
    ensures
        steps_over(a + b, tree) == steps_over(a, tree) + steps_over(b, tree),
    decreases b.len(),
{
    if b.len() == 0 {
        assert(a + b =~= a);
        assert(steps_over(a, tree) + steps_over(b, tree) =~= steps_over(a, tree));
    } else {
        assert((a + b).drop_last() =~= a + b.drop_last());
        lemma_steps_over_concat(a, b.drop_last(), tree);
        if b.last().1 == tree {
            assert(steps_over(a, tree) + steps_over(b, tree) =~= (steps_over(a, tree) + steps_over(
                b.drop_last(),
                tree,
            )).push(b.last().0));
        }
    }
}

/// Each tree that exists gets every pass, in the order of the plan.
pub proof fn law_each_tree_gets_every_pass(
    steps: Seq<RemapStep>,
    var_exists: bool,
    etc_exists: bool,
    tree: RemapTree,
)
    requires
        trees(var_exists, etc_exists).contains(tree),
    ensures
        steps_over(passes_of(steps, trees(var_exists, etc_exists)), tree) == steps,
    decreases steps.len(),
{
    let ts = trees(var_exists, etc_exists);
    if steps.len() == 0 {
        assert(steps =~= Seq::<RemapStep>::empty());
    } else {
        let d = steps.drop_last();
        law_each_tree_gets_every_pass(d, var_exists, etc_exists, tree);
        let now = ts.map_values(|t: RemapTree| (steps.last(), t));
        lemma_steps_over_concat(passes_of(d, ts), now, tree);
        reveal_with_fuel(steps_over, 3);
        if var_exists && etc_exists {
            assert(now =~= seq![(steps.last(), RemapTree::Var), (steps.last(), RemapTree::Etc)]);
            assert(now.drop_last() =~= seq![(steps.last(), RemapTree::Var)]);
            assert(now.drop_last().drop_last() =~= Seq::<(RemapStep, RemapTree)>::empty());
        } else if var_exists {
            assert(now =~= seq![(steps.last(), RemapTree::Var)]);
            assert(now.drop_last() =~= Seq::<(RemapStep, RemapTree)>::empty());
        } else {
            assert(now =~= seq![(steps.last(), RemapTree::Etc)]);
            assert(now.drop_last() =~= Seq::<(RemapStep, RemapTree)>::empty());
        }
        assert(steps_over(now, tree) =~= seq![steps.last()]);
        assert(d + seq![steps.last()] =~= steps);
    }
}

/// The index of the first account that leaves `id`, or the number of accounts.
pub open spec fn leaver(remaps: Seq<RemapEntryView>, kind: IdKind, id: u32) -> int
    decreases remaps.len(),
{
    if remaps.len() == 0 {
        0
    } else if remaps[0].kind == kind && remaps[0].old_id == id {
        0
    } else {
        1 + leaver(remaps.skip(1), kind, id)
    }
}

/// The final id of the first account that leaves `id`, or `id`.
pub open spec fn renumbered(remaps: Seq<RemapEntryView>, kind: IdKind, id: u32) -> u32 {
    let i = leaver(remaps, kind, id);
    if i < remaps.len() {
        remaps[i].new_id
    } else {
        id
    }
}

/// A pass over what two runs of passes left.
proof fn lemma_after_concat(a: Seq<RemapStep>, b: Seq<RemapStep>, kind: IdKind, id: u32)
    ensures
        after_steps(a + b, kind, id) == after_steps(b, kind, after_steps(a, kind, id)),
    decreases b.len(),
{
    if b.len() == 0 {
        assert(a + b =~= a);
    } else {
        assert((a + b).drop_last() =~= a + b.drop_last());
        lemma_after_concat(a, b.drop_last(), kind, id);
    }
}

/// Where no pass starts from the owner, the owner stays.
proof fn lemma_after_none(steps: Seq<RemapStep>, kind: IdKind, id: u32)
    requires
        forall|k: int|
            0 <= k < steps.len() ==> !((#[trigger] steps[k]).kind == kind && steps[k].from == id),
    ensures
        after_steps(steps, kind, id) == id,
    decreases steps.len(),
{
    if steps.len() > 0 {
        let d = steps.drop_last();
        assert forall|k: int| 0 <= k < d.len() implies !((#[trigger] d[k]).kind == kind && d[k].from
            == id) by {
            assert(d[k] == steps[k]);
        }
        lemma_after_none(d, kind, id);
        assert(steps[steps.len() - 1] == steps.last());
    }
}

/// Where the first pass that starts from the owner is the `i`th, and none of
/// the later ones starts from where it leads, the owner ends there.
proof fn lemma_after_one(steps: Seq<RemapStep>, kind: IdKind, id: u32, i: int)
    requires
        0 <= i < steps.len(),
        steps[i].kind == kind,
        steps[i].from == id,
        forall|k: int|
            0 <= k < i ==> !((#[trigger] steps[k]).kind == kind && steps[k].from == id),
        forall|k: int|
            i < k < steps.len() ==> !((#[trigger] steps[k]).kind == kind && steps[k].from
                == steps[i].to),
    ensures
        after_steps(steps, kind, id) == steps[i].to,
{
    let a = steps.take(i);
    let b = steps.skip(i + 1);
    assert(steps =~= a.push(steps[i]) + b);
    assert(a.push(steps[i]).drop_last() =~= a);
    lemma_after_none(a, kind, id);
    lemma_after_concat(a.push(steps[i]), b, kind, id);
    lemma_after_none(b, kind, steps[i].to);
}

/// Scratch ids are found while there is room: they grow, start at
/// [`SCRATCH_START`], and none is in use on either side.
pub proof fn law_scratch_ids_are_free(used: Seq<u32>, n: nat)
    requires
        SCRATCH_START + n + used.len() <= u32::MAX,
    ensures
        scratch_ids(used, n).len() == n,
        forall|k: int|
            0 <= k < n ==> SCRATCH_START <= #[trigger] scratch_ids(used, n)[k] < u32::MAX
                && !used.contains(scratch_ids(used, n)[k] as u32),
        forall|j: int, k: int|
            0 <= j < k < n ==> #[trigger] scratch_ids(used, n)[j] < #[trigger] scratch_ids(
                used,
                n,
            )[k],
{
    lemma_scratch_ids(used, n);
}

/// What the scratch ids are, with how far they reach.
proof fn lemma_scratch_ids(used: Seq<u32>, n: nat)
    requires
        SCRATCH_START + n + used.len() <= u32::MAX,
    ensures
        scratch_ids(used, n).len() == n,
        n > 0 ==> scratch_ids(used, n).last() + 1 - SCRATCH_START == n + used_between(
            used,
            SCRATCH_START as int,
            scratch_ids(used, n).last() + 1,
        ).len(),
        forall|k: int|
            0 <= k < n ==> SCRATCH_START <= #[trigger] scratch_ids(used, n)[k] < u32::MAX
                && !used.contains(scratch_ids(used, n)[k] as u32),
        forall|j: int, k: int|
            0 <= j < k < n ==> #[trigger] scratch_ids(used, n)[j] < #[trigger] scratch_ids(
                used,
                n,
            )[k],
    decreases n,
{
    let lo = SCRATCH_START as int;
    if n > 0 {
        let m = (n - 1) as nat;
        lemma_scratch_ids(used, m);
        let prev = scratch_ids(used, m);
        let start = if n == 1 {
            lo
        } else {
            prev.last() + 1
        };
        assert(used_between(used, lo, lo) =~= Set::empty());
        lemma_used_between(used, lo, start);
        lemma_next_free_reach(used, lo, start, m as int);
        let x = next_free(used, start);
        lemma_used_between_step(used, lo, x);
        let all = scratch_ids(used, n);
        assert(all =~= prev.push(x));
        assert forall|j: int, k: int| 0 <= j < k < n implies #[trigger] all[j] < #[trigger] all[k] by {
            if k == m {
                assert(all[j] == prev[j]);
                if j < m - 1 {
                    assert(prev[j] < prev[m - 1]);
                }
            } else {
                assert(prev[j] < prev[k]);
            }
        }
        assert forall|k: int| 0 <= k < n implies SCRATCH_START <= #[trigger] all[k] < u32::MAX
            && !used.contains(all[k] as u32) by {
            if k < m {
                assert(all[k] == prev[k]);
            }
        }
    }
}

/// The search for a free id passes only used ones, so it ends in time.
proof fn lemma_next_free_reach(used: Seq<u32>, lo: int, from: int, taken: int)
    requires
        0 <= lo <= from,
        0 <= taken,
        lo + taken + 1 + used.len() <= u32::MAX,
        from - lo == taken + used_between(used, lo, from).len(),
    ensures
        from <= next_free(used, from) < u32::MAX,
        !used.contains(next_free(used, from) as u32),
        next_free(used, from) - lo == taken + used_between(used, lo, next_free(used, from)).len(),
    decreases u32::MAX - from,
{
    lemma_used_between(used, lo, from);
    if used.contains(from as u32) {
        lemma_used_between_step(used, lo, from);
        lemma_used_between(used, lo, from + 1);
        lemma_next_free_reach(used, lo, from + 1, taken);
    }
}

/// Where the first account that leaves `id` stands.
proof fn lemma_leaver(remaps: Seq<RemapEntryView>, kind: IdKind, id: u32)
    ensures
        0 <= leaver(remaps, kind, id) <= remaps.len(),
        forall|k: int|
            0 <= k < leaver(remaps, kind, id) ==> !((#[trigger] remaps[k]).kind == kind
                && remaps[k].old_id == id),
        leaver(remaps, kind, id) < remaps.len() ==> remaps[leaver(remaps, kind, id)].kind == kind
            && remaps[leaver(remaps, kind, id)].old_id == id,
    decreases remaps.len(),
{
    if remaps.len() > 0 && !(remaps[0].kind == kind && remaps[0].old_id == id) {
        let rest = remaps.skip(1);
        lemma_leaver(rest, kind, id);
        assert forall|k: int| 0 <= k < leaver(remaps, kind, id) implies !((
        #[trigger] remaps[k]).kind == kind && remaps[k].old_id == id) by {
            if k > 0 {
                assert(rest[k - 1] == remaps[k]);
            }
        }
    }
}

/// Whether each renumbering is between two system ids.
pub open spec fn system_only(remaps: Seq<RemapEntryView>) -> bool {
    forall|k: int|
        0 <= k < remaps.len() ==> in_system_range((#[trigger] remaps[k]).old_id, remaps[k].new_id)
}

/// The owner, before the `j`th pass, of a file that had the owner `id`.
pub open spec fn on_the_way(
    remaps: Seq<RemapEntryView>,
    scratch: Seq<int>,
    kind: IdKind,
    id: u32,
    j: int,
) -> u32 {
    let i = leaver(remaps, kind, id);
    if i >= remaps.len() {
        id
    } else if j <= i {
        id
    } else if j - remaps.len() <= i {
        scratch[i] as u32
    } else {
        remaps[i].new_id
    }
}

/// Where a file stands before the `j`th pass.
proof fn lemma_on_the_way(
    remaps: Seq<RemapEntryView>,
    used: Seq<u32>,
    kind: IdKind,
    id: u32,
    j: int,
)
    requires
        SCRATCH_START + remaps.len() + used.len() <= u32::MAX,
        system_only(remaps),
        forall|k: int|
            0 <= k < remaps.len() ==> #[trigger] scratch_ids(used, remaps.len())[k] != id,
        0 <= j <= 2 * remaps.len(),
    ensures
        after_steps(steps_of(remaps, scratch_ids(used, remaps.len())).take(j), kind, id)
            == on_the_way(remaps, scratch_ids(used, remaps.len()), kind, id, j),
{
    let n = remaps.len() as int;
    let scratch = scratch_ids(used, remaps.len());
    let all = steps_of(remaps, scratch);
    let steps = all.take(j);
    let i = leaver(remaps, kind, id);
    lemma_scratch_ids(used, remaps.len());
    lemma_leaver(remaps, kind, id);
    assert forall|k: int| 0 <= k < n implies SCRATCH_START <= #[trigger] scratch[k] < u32::MAX
        && in_system_range(remaps[k].old_id, remaps[k].new_id) by {}
    assert forall|k: int| 0 <= k < j && (k < i || n <= k) implies !((#[trigger] steps[k]).kind
        == kind && steps[k].from == id) by {
        if k < n {
            assert(steps[k].from == remaps[k].old_id);
        } else {
            assert(steps[k].from == scratch[k - n] as u32);
            assert(scratch[k - n] != id);
        }
    }
    if i >= n || j <= i {
        lemma_after_none(steps, kind, id);
    } else {
        let first = steps.take(i + 1);
        let rest = steps.skip(i + 1);
        let mid = scratch[i] as u32;
        assert(steps =~= first + rest);
        lemma_after_concat(first, rest, kind, id);
        assert forall|k: int| 0 <= k < i implies !((#[trigger] first[k]).kind == kind
            && first[k].from == id) by {
            assert(first[k] == steps[k]);
        }
        assert(first[i] == all[i]);
        lemma_after_one(first, kind, id, i);
        assert forall|k: int| 0 <= k < rest.len() && k + i + 1 != n + i implies !((
        #[trigger] rest[k]).kind == kind && rest[k].from == mid) by {
            let m = k + i + 1;
            assert(rest[k] == all[m]);
            if m < n {
                assert(all[m].from == remaps[m].old_id);
                assert(SCRATCH_START <= scratch[m]);
            } else {
                assert(all[m].from == scratch[m - n] as u32);
                if m - n < i {
                    assert(scratch[m - n] < scratch[i]);
                } else {
                    assert(scratch[i] < scratch[m - n]);
                }
            }
        }
        if j - n <= i {
            lemma_after_none(rest, kind, mid);
        } else {
            assert(rest[n - 1] == all[n + i]);
            assert forall|k: int| n - 1 < k < rest.len() implies !((#[trigger] rest[k]).kind == kind
                && rest[k].from == rest[n - 1].to) by {
                assert(rest[k] == all[k + i + 1]);
                assert(SCRATCH_START <= scratch[k + i + 1 - n]);
            }
            lemma_after_one(rest, kind, mid, n - 1);
        }
    }
}

/// The passes renumber every file once, whatever ids the accounts exchange: a
/// file that belongs to an account that moves ends at that account's final
/// id, and every other file keeps its owner. Scratch ids, which no account
/// has, are left out.
pub proof fn law_steps_renumber_every_file(
    remaps: Seq<RemapEntryView>,
    used: Seq<u32>,
    kind: IdKind,
    id: u32,
)
    requires
        SCRATCH_START + remaps.len() + used.len() <= u32::MAX,
        system_only(remaps),
        forall|k: int|
            0 <= k < remaps.len() ==> #[trigger] scratch_ids(used, remaps.len())[k] != id,
    ensures
        after_steps(steps_of(remaps, scratch_ids(used, remaps.len())), kind, id) == renumbered(
            remaps,
            kind,
            id,
        ),
{
    let all = steps_of(remaps, scratch_ids(used, remaps.len()));
    lemma_on_the_way(remaps, used, kind, id, all.len() as int);
    lemma_leaver(remaps, kind, id);
    assert(all.take(all.len() as int) =~= all);
}

/// An id that is in use is no scratch id.
proof fn lemma_used_is_no_scratch(used: Seq<u32>, n: nat, id: u32)
    requires
        SCRATCH_START + n + used.len() <= u32::MAX,
        used.contains(id),
    ensures
        forall|k: int| 0 <= k < n ==> #[trigger] scratch_ids(used, n)[k] != id,
{
    lemma_scratch_ids(used, n);
    assert forall|k: int| 0 <= k < n implies #[trigger] scratch_ids(used, n)[k] != id by {
        assert(!used.contains(scratch_ids(used, n)[k] as u32));
    }
}

/// The renumberings of a plan are between system ids, and there is room for
/// their scratch ids.
pub proof fn lemma_remaps_of(
    source_passwd: Seq<PasswdEntryView>,
    source_group: Seq<GroupEntryView>,
    target_passwd: Seq<PasswdEntryView>,
    target_group: Seq<GroupEntryView>,
)
    requires
        room_for(
            source_passwd.len(),
            source_group.len(),
            target_passwd.len(),
            target_group.len(),
        ),
    ensures
        system_only(remaps_of(source_passwd, source_group, target_passwd, target_group)),
        SCRATCH_START + remaps_of(
            source_passwd,
            source_group,
            target_passwd,
            target_group,
        ).len() + used_ids(source_passwd, source_group, target_passwd, target_group).len()
            <= u32::MAX,
{
    let su = uids(source_passwd);
    let tu = uids(target_passwd);
    let sg = gids(source_group);
    let tg = gids(target_group);
    lemma_diverging_len(IdKind::Uid, su, tu);
    lemma_diverging_len(IdKind::Gid, sg, tg);
    lemma_remaps_among(IdKind::Uid, sorted_set(names_in(su)), su, tu);
    lemma_remaps_among(IdKind::Gid, sorted_set(names_in(sg)), sg, tg);
    let a = diverging(IdKind::Uid, su, tu);
    let b = diverging(IdKind::Gid, sg, tg);
    let all = remaps_of(source_passwd, source_group, target_passwd, target_group);
    assert forall|k: int| 0 <= k < all.len() implies in_system_range(
        (#[trigger] all[k]).old_id,
        all[k].new_id,
    ) by {
        if k < a.len() {
            assert(all[k] == a[k]);
        } else {
            assert(all[k] == b[k - a.len()]);
        }
    }
}

/// The passes of a plan renumber the files of every account and of every group
/// of both sides, the primary groups of accounts included: each ends at the
/// final id of the account that leaves its id, or keeps it where none does.
pub proof fn law_plan_renumbers_every_account(
    source_passwd: Seq<PasswdEntryView>,
    source_group: Seq<GroupEntryView>,
    target_passwd: Seq<PasswdEntryView>,
    target_group: Seq<GroupEntryView>,
    kind: IdKind,
    id: u32,
)
    requires
        room_for(
            source_passwd.len(),
            source_group.len(),
            target_passwd.len(),
            target_group.len(),
        ),
        used_ids(source_passwd, source_group, target_passwd, target_group).contains(id),
    ensures
        ({
            let remaps = remaps_of(source_passwd, source_group, target_passwd, target_group);
            let used = used_ids(source_passwd, source_group, target_passwd, target_group);
            after_steps(steps_of(remaps, scratch_ids(used, remaps.len())), kind, id) == renumbered(
                remaps,
                kind,
                id,
            )
        }),
{
    let remaps = remaps_of(source_passwd, source_group, target_passwd, target_group);
    let used = used_ids(source_passwd, source_group, target_passwd, target_group);
    lemma_remaps_of(source_passwd, source_group, target_passwd, target_group);
    lemma_used_is_no_scratch(used, remaps.len(), id);
    law_steps_renumber_every_file(remaps, used, kind, id);
}

/// No pass mixes the files of two accounts: after the passes to the scratch
/// ids, files that had different owners have different owners still.
pub proof fn law_scratch_passes_keep_accounts_apart(
    remaps: Seq<RemapEntryView>,
    used: Seq<u32>,
    kind: IdKind,
    a: u32,
    b: u32,
)
    requires
        SCRATCH_START + remaps.len() + used.len() <= u32::MAX,
        system_only(remaps),
        used.contains(a),
        used.contains(b),
        a != b,
    ensures
        after_steps(to_scratch(remaps, scratch_ids(used, remaps.len())), kind, a) != after_steps(
            to_scratch(remaps, scratch_ids(used, remaps.len())),
            kind,
            b,
        ),
{
    let scratch = scratch_ids(used, remaps.len());
    let n = remaps.len() as int;
    lemma_used_is_no_scratch(used, remaps.len(), a);
    lemma_used_is_no_scratch(used, remaps.len(), b);
    lemma_on_the_way(remaps, used, kind, a, n);
    lemma_on_the_way(remaps, used, kind, b, n);
    lemma_scratch_ids(used, remaps.len());
    lemma_leaver(remaps, kind, a);
    lemma_leaver(remaps, kind, b);
    assert(steps_of(remaps, scratch).take(n) =~= to_scratch(remaps, scratch));
    lemma_scratch_apart(remaps, scratch, kind, a, b);
}

/// Two ids that accounts leave have two scratch ids.
proof fn lemma_scratch_apart(
    remaps: Seq<RemapEntryView>,
    scratch: Seq<int>,
    kind: IdKind,
    a: u32,
    b: u32,
)
    requires
        a != b,
        scratch.len() == remaps.len(),
        forall|k: int| 0 <= k < scratch.len() ==> 0 <= #[trigger] scratch[k] <= u32::MAX,
        forall|j: int, k: int|
            0 <= j < k < scratch.len() ==> #[trigger] scratch[j] < #[trigger] scratch[k],
    ensures
        ({
            let i = leaver(remaps, kind, a);
            let j = leaver(remaps, kind, b);
            i < remaps.len() && j < remaps.len() ==> scratch[i] as u32 != scratch[j] as u32
        }),
{
    lemma_leaver(remaps, kind, a);
    lemma_leaver(remaps, kind, b);
    let i = leaver(remaps, kind, a);
    let j = leaver(remaps, kind, b);
    if i < remaps.len() && j < remaps.len() {
        if i < j {
            assert(scratch[i] < scratch[j]);
        } else if j < i {
            assert(scratch[j] < scratch[i]);
        }
    }
}

/// No pass takes up the files of two accounts: of two ids in use, files of at
/// most one have, before the pass, the id that it starts from.
pub proof fn law_each_pass_takes_up_one_account(
    remaps: Seq<RemapEntryView>,
    used: Seq<u32>,
    kind: IdKind,
    a: u32,
    b: u32,
    j: int,
)
    requires
        SCRATCH_START + remaps.len() + used.len() <= u32::MAX,
        system_only(remaps),
        used.contains(a),
        used.contains(b),
        a != b,
        0 <= j < 2 * remaps.len(),
    ensures
        ({
            let steps = steps_of(remaps, scratch_ids(used, remaps.len()));
            !(after_steps(steps.take(j), kind, a) == steps[j].from && after_steps(
                steps.take(j),
                kind,
                b,
            ) == steps[j].from)
        }),
{
    let n = remaps.len() as int;
    let scratch = scratch_ids(used, remaps.len());
    lemma_used_is_no_scratch(used, remaps.len(), a);
    lemma_used_is_no_scratch(used, remaps.len(), b);
    lemma_on_the_way(remaps, used, kind, a, j);
    lemma_on_the_way(remaps, used, kind, b, j);
    lemma_scratch_ids(used, remaps.len());
    lemma_scratch_apart(remaps, scratch, kind, a, b);
    lemma_leaver(remaps, kind, a);
    lemma_leaver(remaps, kind, b);
    assert forall|k: int| 0 <= k < n implies SCRATCH_START <= #[trigger] scratch[k] < u32::MAX
        && in_system_range(remaps[k].old_id, remaps[k].new_id) by {}
    if j < n {
        assert(SCRATCH_START <= scratch[j]);
    } else {
        assert(SCRATCH_START <= scratch[j - n]);
        assert(scratch[j - n] != a && scratch[j - n] != b);
    }
    let i = leaver(remaps, kind, a);
    let m = leaver(remaps, kind, b);
    if i < n {
        assert(SCRATCH_START <= scratch[i]);
    }
    if m < n {
        assert(SCRATCH_START <= scratch[m]);
    }
}

/// The id of a name stands with it in a line.
proof fn lemma_id_of_line(t: Seq<(Seq<char>, u32)>, name: Seq<char>)
    requires
        id_of(t, name) is Some,
    ensures
        exists|k: int| 0 <= k < t.len() && #[trigger] t[k] == (name, id_of(t, name)->0),
    decreases t.len(),
{
    let n = t.len() - 1;
    if t.last().0 == name {
        assert(t[n] == (name, id_of(t, name)->0));
    } else {
        let d = t.drop_last();
        lemma_id_of_line(d, name);
        let k = choose|k: int| 0 <= k < d.len() && #[trigger] d[k] == (name, id_of(d, name)->0);
        assert(t[k] == d[k]);
    }
}

/// Where no two names share an id, two names with one id are the same.
proof fn lemma_id_names_one(t: Seq<(Seq<char>, u32)>, a: Seq<char>, b: Seq<char>)
    requires
        ids_in(t).no_duplicates(),
        id_of(t, a) is Some,
        id_of(t, a) == id_of(t, b),
    ensures
        a == b,
{
    lemma_id_of_line(t, a);
    lemma_id_of_line(t, b);
    let j = choose|j: int| 0 <= j < t.len() && #[trigger] t[j] == (a, id_of(t, a)->0);
    let k = choose|k: int| 0 <= k < t.len() && #[trigger] t[k] == (b, id_of(t, b)->0);
    assert(ids_in(t)[j] == ids_in(t)[k]);
}

/// Renumberings of one kind that leave one id end at one id.
proof fn lemma_leavers_agree(
    source_passwd: Seq<PasswdEntryView>,
    source_group: Seq<GroupEntryView>,
    target_passwd: Seq<PasswdEntryView>,
    target_group: Seq<GroupEntryView>,
    j: int,
    k: int,
)
    requires
        ids_in(uids(source_passwd)).no_duplicates(),
        ids_in(gids(source_group)).no_duplicates(),
        ({
            let remaps = remaps_of(source_passwd, source_group, target_passwd, target_group);
            &&& 0 <= j < remaps.len()
            &&& 0 <= k < remaps.len()
            &&& remaps[j].kind == remaps[k].kind
            &&& remaps[j].old_id == remaps[k].old_id
        }),
    ensures
        ({
            let remaps = remaps_of(source_passwd, source_group, target_passwd, target_group);
            remaps[j].new_id == remaps[k].new_id
        }),
{
    let su = uids(source_passwd);
    let tu = uids(target_passwd);
    let sg = gids(source_group);
    let tg = gids(target_group);
    let a = diverging(IdKind::Uid, su, tu);
    let b = diverging(IdKind::Gid, sg, tg);
    let remaps = remaps_of(source_passwd, source_group, target_passwd, target_group);
    lemma_remaps_among(IdKind::Uid, sorted_set(names_in(su)), su, tu);
    lemma_remaps_among(IdKind::Gid, sorted_set(names_in(sg)), sg, tg);
    assert(j < a.len() ==> remaps[j] == a[j]);
    assert(j >= a.len() ==> remaps[j] == b[j - a.len()]);
    assert(k < a.len() ==> remaps[k] == a[k]);
    assert(k >= a.len() ==> remaps[k] == b[k - a.len()]);
    if j < a.len() {
        lemma_id_names_one(su, remaps[j].name, remaps[k].name);
    } else {
        lemma_id_names_one(sg, remaps[j].name, remaps[k].name);
    }
}

/// The passes of a plan are safe whatever ids the accounts exchange, cycles
/// among them. Where no two accounts of the source share an id, nor two of its
/// groups, there are two passes for each renumbering, the files of an account
/// that is renumbered end at its new id, those of every other keep theirs, and
/// no pass takes up the files of two owners.
pub proof fn law_plan_is_safe_for_cycles(
    source_passwd: Seq<PasswdEntryView>,
    source_group: Seq<GroupEntryView>,
    target_passwd: Seq<PasswdEntryView>,
    target_group: Seq<GroupEntryView>,
    kind: IdKind,
    id: u32,
)
    requires
        room_for(
            source_passwd.len(),
            source_group.len(),
            target_passwd.len(),
            target_group.len(),
        ),
        ids_in(uids(source_passwd)).no_duplicates(),
        ids_in(gids(source_group)).no_duplicates(),
        used_ids(source_passwd, source_group, target_passwd, target_group).contains(id),
    ensures
        ({
            let remaps = remaps_of(source_passwd, source_group, target_passwd, target_group);
            let used = used_ids(source_passwd, source_group, target_passwd, target_group);
            let steps = steps_of(remaps, scratch_ids(used, remaps.len()));
            &&& steps.len() == 2 * remaps.len()
            &&& forall|r: int|
                0 <= r < remaps.len() && (#[trigger] remaps[r]).kind == kind && remaps[r].old_id
                    == id ==> after_steps(steps, kind, id) == remaps[r].new_id
            &&& (forall|r: int|
                0 <= r < remaps.len() ==> !((#[trigger] remaps[r]).kind == kind
                    && remaps[r].old_id == id)) ==> after_steps(steps, kind, id) == id
            &&& forall|other: u32, j: int|
                used.contains(other) && other != id && 0 <= j < steps.len() ==> !(after_steps(
                    steps.take(j),
                    kind,
                    id,
                ) == (#[trigger] steps[j]).from && #[trigger] after_steps(
                    steps.take(j),
                    kind,
                    other,
                ) == steps[j].from)
        }),
{
    let remaps = remaps_of(source_passwd, source_group, target_passwd, target_group);
    let used = used_ids(source_passwd, source_group, target_passwd, target_group);
    let steps = steps_of(remaps, scratch_ids(used, remaps.len()));
    lemma_remaps_of(source_passwd, source_group, target_passwd, target_group);
    law_plan_renumbers_every_account(
        source_passwd,
        source_group,
        target_passwd,
        target_group,
        kind,
        id,
    );
    lemma_leaver(remaps, kind, id);
    let i = leaver(remaps, kind, id);
    assert forall|r: int|
        0 <= r < remaps.len() && (#[trigger] remaps[r]).kind == kind && remaps[r].old_id
            == id implies after_steps(steps, kind, id) == remaps[r].new_id by {
        assert(i <= r);
        lemma_leavers_agree(source_passwd, source_group, target_passwd, target_group, i, r);
    }
    assert forall|other: u32, j: int|
        used.contains(other) && other != id && 0 <= j < steps.len() implies !(after_steps(
            steps.take(j),
            kind,
            id,
        ) == (#[trigger] steps[j]).from && #[trigger] after_steps(steps.take(j), kind, other)
            == steps[j].from) by {
        law_each_pass_takes_up_one_account(remaps, used, kind, id, other, j);
    }
}

/// Before each pass of the second half, and after the last, no two accounts
/// share an id: files whose owners the renumbering keeps apart are apart all
/// the way.
pub proof fn law_accounts_stay_apart_on_the_way(
    remaps: Seq<RemapEntryView>,
    used: Seq<u32>,
    kind: IdKind,
    a: u32,
    b: u32,
    j: int,
)
    requires
        SCRATCH_START + remaps.len() + used.len() <= u32::MAX,
        system_only(remaps),
        used.contains(a),
        used.contains(b),
        a != b,
        renumbered(remaps, kind, a) != renumbered(remaps, kind, b),
        0 <= j <= 2 * remaps.len(),
    ensures
        ({
            let steps = steps_of(remaps, scratch_ids(used, remaps.len()));
            after_steps(steps.take(j), kind, a) != after_steps(steps.take(j), kind, b)
        }),
{
    let n = remaps.len() as int;
    let scratch = scratch_ids(used, remaps.len());
    lemma_used_is_no_scratch(used, remaps.len(), a);
    lemma_used_is_no_scratch(used, remaps.len(), b);
    lemma_on_the_way(remaps, used, kind, a, j);
    lemma_on_the_way(remaps, used, kind, b, j);
    lemma_scratch_ids(used, remaps.len());
    lemma_scratch_apart(remaps, scratch, kind, a, b);
    lemma_leaver(remaps, kind, a);
    lemma_leaver(remaps, kind, b);
    let i = leaver(remaps, kind, a);
    let m = leaver(remaps, kind, b);
    if i < n {
        assert(SCRATCH_START <= scratch[i] < u32::MAX);
        assert(scratch[i] != a && scratch[i] != b);
        assert(in_system_range(remaps[i].old_id, remaps[i].new_id));
    }
    if m < n {
        assert(SCRATCH_START <= scratch[m] < u32::MAX);
        assert(scratch[m] != a && scratch[m] != b);
        assert(in_system_range(remaps[m].old_id, remaps[m].new_id));
    }
}

/// The owners before the passes and after them, where each change is made.
pub open spec fn carried_out(steps: Seq<RemapStep>, owners: Seq<(u32, u32)>) -> Seq<OwnerChange> {
    owners.map_values(|o: (u32, u32)| OwnerChange { before: o, after: owner_after(steps, o) })
}

/// Whether the id is the scratch id of one of the renumberings.
pub open spec fn is_scratch(remaps: Seq<RemapEntryView>, used: Seq<u32>, id: u32) -> bool {
    exists|k: int|
        0 <= k < remaps.len() && #[trigger] scratch_ids(used, remaps.len())[k] == id
}

/// How many of the files belong to an account or a group that moves.
pub open spec fn moved(remaps: Seq<RemapEntryView>, owners: Seq<(u32, u32)>) -> nat
    decreases owners.len(),
{
    if owners.len() == 0 {
        0
    } else {
        let o = owners.last();
        moved(remaps, owners.drop_last()) + if renumbered(remaps, IdKind::Uid, o.0) != o.0
            || renumbered(remaps, IdKind::Gid, o.1) != o.1 {
            1nat
        } else {
            0nat
        }
    }
}

/// Where each change is made, the files that are updated are those of the
/// accounts and groups that move, each counted once though it goes through
/// its scratch id.
pub proof fn law_files_of_moved_accounts_are_updated(
    remaps: Seq<RemapEntryView>,
    used: Seq<u32>,
    owners: Seq<(u32, u32)>,
)
    requires
        SCRATCH_START + remaps.len() + used.len() <= u32::MAX,
        system_only(remaps),
        forall|k: int|
            0 <= k < owners.len() ==> !is_scratch(remaps, used, (#[trigger] owners[k]).0)
                && !is_scratch(remaps, used, owners[k].1),
    ensures
        updated(carried_out(steps_of(remaps, scratch_ids(used, remaps.len())), owners)) == moved(
            remaps,
            owners,
        ),
    decreases owners.len(),
{
    let steps = steps_of(remaps, scratch_ids(used, remaps.len()));
    if owners.len() > 0 {
        let d = owners.drop_last();
        let o = owners[owners.len() - 1];
        assert forall|k: int| 0 <= k < d.len() implies !is_scratch(remaps, used, (#[trigger] d[k]).0)
            && !is_scratch(remaps, used, d[k].1) by {
            assert(d[k] == owners[k]);
        }
        law_files_of_moved_accounts_are_updated(remaps, used, d);
        assert(carried_out(steps, owners).drop_last() =~= carried_out(steps, d));
        assert(!is_scratch(remaps, used, o.0) && !is_scratch(remaps, used, o.1));
        law_steps_renumber_every_file(remaps, used, IdKind::Uid, o.0);
        law_steps_renumber_every_file(remaps, used, IdKind::Gid, o.1);
    }
}

/// What is renumbered among the names.
pub proof fn lemma_remaps_among(
    kind: IdKind,
    names: Seq<Seq<char>>,
    source: Seq<(Seq<char>, u32)>,
    target: Seq<(Seq<char>, u32)>,
)
    ensures
        forall|k: int|
            0 <= k < remaps_among(kind, names, source, target).len() ==> {
                let e = #[trigger] remaps_among(kind, names, source, target)[k];
                &&& e.kind == kind
                &&& id_of(source, e.name) == Some(e.old_id)
                &&& id_of(target, e.name) == Some(e.new_id)
                &&& e.old_id != e.new_id
                &&& in_system_range(e.old_id, e.new_id)
            },
    decreases names.len(),
{
    if names.len() > 0 {
        let d = names.drop_last();
        lemma_remaps_among(kind, d, source, target);
        let rest = remaps_among(kind, d, source, target);
        let all = remaps_among(kind, names, source, target);
        assert forall|k: int| 0 <= k < all.len() implies {
            let e = #[trigger] all[k];
            &&& e.kind == kind
            &&& id_of(source, e.name) == Some(e.old_id)
            &&& id_of(target, e.name) == Some(e.new_id)
            &&& e.old_id != e.new_id
            &&& in_system_range(e.old_id, e.new_id)
        } by {
            if k < rest.len() {
                assert(all[k] == rest[k]);
            }
        }
    }
}

/// Root and human users are never renumbered: each renumbering is of one
/// account that both sides have, from its id on the source to another on the
/// target, both of them system ids.
pub proof fn law_only_system_accounts_are_remapped(
    kind: IdKind,
    source: Seq<(Seq<char>, u32)>,
    target: Seq<(Seq<char>, u32)>,
    k: int,
)
    requires
        0 <= k < diverging(kind, source, target).len(),
    ensures
        ({
            let e = diverging(kind, source, target)[k];
            &&& id_of(source, e.name) == Some(e.old_id)
            &&& id_of(target, e.name) == Some(e.new_id)
            &&& e.old_id != e.new_id
            &&& 0 < e.old_id < SYSTEM_ID_LIMIT
            &&& 0 < e.new_id < SYSTEM_ID_LIMIT
        }),
{
    lemma_remaps_among(kind, sorted_set(names_in(source)), source, target);
}

/// Bases that agree need no renumbering, and no pass.
pub proof fn law_identical_tables_need_nothing(
    passwd: Seq<PasswdEntryView>,
    group: Seq<GroupEntryView>,
)
    ensures
        remaps_of(passwd, group, passwd, group).len() == 0,
        one_sided(uids(passwd), uids(passwd)).len() == 0,
        one_sided(gids(group), gids(group)).len() == 0,
        steps_of(
            remaps_of(passwd, group, passwd, group),
            scratch_ids(used_ids(passwd, group, passwd, group), 0),
        ).len() == 0,
{
    lemma_same_table(IdKind::Uid, sorted_set(names_in(uids(passwd))), uids(passwd));
    lemma_same_table(IdKind::Gid, sorted_set(names_in(gids(group))), gids(group));
    lemma_names_have_ids(uids(passwd));
    lemma_names_have_ids(gids(group));
    lemma_not_one_sided(names_in(uids(passwd)), uids(passwd));
    lemma_not_one_sided(names_in(gids(group)), gids(group));
}

/// Nothing diverges between a table and itself.
proof fn lemma_same_table(kind: IdKind, names: Seq<Seq<char>>, t: Seq<(Seq<char>, u32)>)
    ensures
        remaps_among(kind, names, t, t).len() == 0,
    decreases names.len(),
{
    if names.len() > 0 {
        lemma_same_table(kind, names.drop_last(), t);
    }
}

/// No name of a table is one-sided against the table itself.
proof fn lemma_not_one_sided(names: Seq<Seq<char>>, t: Seq<(Seq<char>, u32)>)
    requires
        forall|k: int| 0 <= k < names.len() ==> id_of(t, #[trigger] names[k]) is Some,
    ensures
        one_sided_among(names, t, t).len() == 0,
    decreases names.len(),
{
    if names.len() > 0 {
        let d = names.drop_last();
        assert forall|k: int| 0 <= k < d.len() implies id_of(t, #[trigger] d[k]) is Some by {
            assert(d[k] == names[k]);
        }
        lemma_not_one_sided(d, t);
        assert(id_of(t, names[names.len() - 1]) is Some);
    }
}

/// Every name in a table has an id there.
proof fn lemma_names_have_ids(t: Seq<(Seq<char>, u32)>)
    ensures
        forall|k: int| 0 <= k < t.len() ==> id_of(t, #[trigger] names_in(t)[k]) is Some,
{
    assert forall|k: int| 0 <= k < t.len() implies id_of(t, #[trigger] names_in(t)[k]) is Some by {
        lemma_id_of_listed(t, k);
    }
}

/// A name with an id stands in the table.
proof fn lemma_id_is_listed(t: Seq<(Seq<char>, u32)>, name: Seq<char>)
    requires
        id_of(t, name) is Some,
    ensures
        names_in(t).contains(name),
    decreases t.len(),
{
    let last = t.len() - 1;
    assert(names_in(t)[last] == t[last].0);
    if t.last().0 != name {
        let d = t.drop_last();
        lemma_id_is_listed(d, name);
        let m = choose|m: int| 0 <= m < names_in(d).len() && names_in(d)[m] == name;
        assert(names_in(t)[m] == name);
    }
}

/// A one-sided name among the names is found.
pub proof fn lemma_one_sided_found(
    names: Seq<Seq<char>>,
    a: Seq<(Seq<char>, u32)>,
    b: Seq<(Seq<char>, u32)>,
    name: Seq<char>,
)
    requires
        names.contains(name),
        is_one_sided(a, b, name),
    ensures
        one_sided_among(names, a, b).contains(name),
    decreases names.len(),
{
    let r = one_sided_among(names, a, b);
    if names.last() == name {
        assert(r[r.len() - 1] == name);
    } else {
        let d = names.drop_last();
        let m = choose|m: int| 0 <= m < names.len() && names[m] == name;
        assert(d[m] == name);
        lemma_one_sided_found(d, a, b, name);
        let rest = one_sided_among(d, a, b);
        let k = choose|k: int| 0 <= k < rest.len() && rest[k] == name;
        assert(r[k] == name);
    }
}

/// A diverging system account among the names is renumbered.
pub proof fn lemma_remap_found(
    kind: IdKind,
    names: Seq<Seq<char>>,
    source: Seq<(Seq<char>, u32)>,
    target: Seq<(Seq<char>, u32)>,
    e: RemapEntryView,
)
    requires
        names.contains(e.name),
        e.kind == kind,
        id_of(source, e.name) == Some(e.old_id),
        id_of(target, e.name) == Some(e.new_id),
        e.old_id != e.new_id,
        in_system_range(e.old_id, e.new_id),
    ensures
        remaps_among(kind, names, source, target).contains(e),
    decreases names.len(),
{
    let r = remaps_among(kind, names, source, target);
    if names.last() == e.name {
        assert(r[r.len() - 1] == e);
    } else {
        let d = names.drop_last();
        let m = choose|m: int| 0 <= m < names.len() && names[m] == e.name;
        assert(d[m] == e.name);
        lemma_remap_found(kind, d, source, target, e);
        let rest = remaps_among(kind, d, source, target);
        let k = choose|k: int| 0 <= k < rest.len() && rest[k] == e;
        assert(r[k] == e);
    }
}

/// No divergence is dropped: an account of the source that the target lacks is
/// listed, one that the target has under another id is renumbered where both
/// ids are of the system, and is listed for both sides where they are not.
pub proof fn law_no_divergence_is_dropped(
    kind: IdKind,
    source: Seq<(Seq<char>, u32)>,
    target: Seq<(Seq<char>, u32)>,
    name: Seq<char>,
)
    requires
        id_of(source, name) is Some,
        id_of(source, name) != id_of(target, name),
    ensures
        match (id_of(source, name), id_of(target, name)) {
            (Some(old_id), Some(new_id)) => if in_system_range(old_id, new_id) {
                diverging(kind, source, target).contains(
                    RemapEntryView { name, kind, old_id, new_id },
                )
            } else {
                one_sided(source, target).contains(name) && one_sided(target, source).contains(name)
            },
            _ => one_sided(source, target).contains(name),
        },
{
    broadcast use vstd::seq_lib::group_seq_properties;

    lemma_id_is_listed(source, name);
    match (id_of(source, name), id_of(target, name)) {
        (Some(old_id), Some(new_id)) => {
            lemma_id_is_listed(target, name);
            if in_system_range(old_id, new_id) {
                let names = names_in(source);
                lemma_sorted_set(names);
                assert(names.to_set().contains(name));
                assert(sorted_set(names).to_set().contains(name));
                assert(sorted_set(names).contains(name));
                lemma_remap_found(
                    kind,
                    sorted_set(names),
                    source,
                    target,
                    RemapEntryView { name, kind, old_id, new_id },
                );
            } else {
                lemma_one_sided_found(names_in(source), source, target, name);
                lemma_one_sided_found(names_in(target), target, source, name);
            }
        },
        _ => {
            lemma_one_sided_found(names_in(source), source, target, name);
        },
    }
}

/// A listed account has an id.
proof fn lemma_id_of_listed(t: Seq<(Seq<char>, u32)>, m: int)
    requires
        0 <= m < t.len(),
    ensures
        id_of(t, t[m].0) is Some,
    decreases t.len(),
{
    if t.last().0 != t[m].0 {
        assert(m < t.len() - 1);
        assert(t.drop_last()[m] == t[m]);
        lemma_id_of_listed(t.drop_last(), m);
    }
}

} // verus!
