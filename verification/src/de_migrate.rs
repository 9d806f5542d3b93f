//! The per-user configuration of desktop environments around a re-base from
//! one to another.
//!
//! The configuration of the desktop that leaves is moved out of the way, never
//! deleted, and moved back when that desktop returns. A few preferences that
//! have a meaning on both sides are worked out as data; applying them is left
//! to hook scripts.

use vstd::prelude::*;

use crate::text::compose::owned_all;
use crate::text::numbers::{parse_number, parse_u32};
use crate::text::order::{list_contains, sort_texts, sorted_texts};
use crate::text::paths::{join_path, path_join};
use crate::text::pieces::{
    lines, lines_of, split, split_at, trim, trim_end_char, trim_start_char, trimmed,
    trimmed_end_char, trimmed_start_char,
};
use crate::text::search::{
    begins, contains, cut, ends_with, finishes, head, holds, lower, same, split_once,
    starts_with, tail, to_lower,
};

verus! {

/// A desktop environment.
#[derive(Debug, Clone, Copy, PartialEq, Eq, PartialOrd, Ord, Structural)]
pub enum DesktopEnvironment {
    Gnome,
    Kde,
    Cosmic,
    Niri,
    Xfce,
}

impl DeepView for DesktopEnvironment {
    type V = DesktopEnvironment;

    open spec fn deep_view(&self) -> DesktopEnvironment {
        *self
    }
}

/// The name of a desktop, which is also that of its stash and what hooks see.
pub open spec fn desktop_name(de: DesktopEnvironment) -> Seq<char> {
    match de {
        DesktopEnvironment::Gnome => "gnome"@,
        DesktopEnvironment::Kde => "kde"@,
        DesktopEnvironment::Cosmic => "cosmic"@,
        DesktopEnvironment::Niri => "niri"@,
        DesktopEnvironment::Xfce => "xfce"@,
    }
}

impl DesktopEnvironment {
    /// The name of the desktop.
    pub fn name(&self) -> (r: String)
        ensures
            r@ == desktop_name(*self),
    {
        de_dir_name(*self).to_owned()
    }
}

/// The name of a desktop.
pub fn de_dir_name(de: DesktopEnvironment) -> (r: &'static str)
    ensures
        r@ == desktop_name(de),
{
    match de {
        DesktopEnvironment::Gnome => "gnome",
        DesktopEnvironment::Kde => "kde",
        DesktopEnvironment::Cosmic => "cosmic",
        DesktopEnvironment::Niri => "niri",
        DesktopEnvironment::Xfce => "xfce",
    }
}

/// The desktop of that name.
pub open spec fn desktop_named(name: Seq<char>) -> Option<DesktopEnvironment> {
    let n = lower(trim(name));
    if n == "gnome"@ {
        Some(DesktopEnvironment::Gnome)
    } else if n == "kde"@ {
        Some(DesktopEnvironment::Kde)
    } else if n == "cosmic"@ {
        Some(DesktopEnvironment::Cosmic)
    } else if n == "niri"@ {
        Some(DesktopEnvironment::Niri)
    } else if n == "xfce"@ {
        Some(DesktopEnvironment::Xfce)
    } else {
        None
    }
}

/// The desktop of that name, with case and the white space around it ignored.
pub fn parse_desktop_environment(name: &str) -> (r: Option<DesktopEnvironment>)
    ensures
        r == desktop_named(name@),
{
    let t: String = trimmed(name);
    let n: String = to_lower(t.as_str());
    if same(n.as_str(), "gnome") {
        Some(DesktopEnvironment::Gnome)
    } else if same(n.as_str(), "kde") {
        Some(DesktopEnvironment::Kde)
    } else if same(n.as_str(), "cosmic") {
        Some(DesktopEnvironment::Cosmic)
    } else if same(n.as_str(), "niri") {
        Some(DesktopEnvironment::Niri)
    } else if same(n.as_str(), "xfce") {
        Some(DesktopEnvironment::Xfce)
    } else {
        None
    }
}

/// A desktop is found by its name.
pub proof fn law_desktop_names_round_trip(de: DesktopEnvironment)
    ensures
        desktop_named(desktop_name(de)) == Some(de),
{
    reveal_strlit("gnome");
    reveal_strlit("kde");
    reveal_strlit("cosmic");
    reveal_strlit("niri");
    reveal_strlit("xfce");
    let n = desktop_name(de);
    assert(n.len() > 2);
    assert(crate::text::pieces::trim_start(n) == n);
    assert(trim(n) == n) by {
        assert(!crate::text::chars::is_white(n.last()));
    }
    assert(lower(n) =~= n);
    assert("gnome"@[0] != "kde"@[0]);
    assert("gnome"@[0] != "cosmic"@[0]);
    assert("gnome"@[0] != "niri"@[0]);
    assert("gnome"@[0] != "xfce"@[0]);
    assert("kde"@[0] != "cosmic"@[0]);
    assert("kde"@[0] != "niri"@[0]);
    assert("kde"@[0] != "xfce"@[0]);
    assert("cosmic"@[0] != "niri"@[0]);
    assert("cosmic"@[0] != "xfce"@[0]);
    assert("niri"@[0] != "xfce"@[0]);
}

/// The paths below a user's home that hold a desktop's configuration.
pub open spec fn paths_of(de: DesktopEnvironment) -> Seq<Seq<char>> {
    match de {
        DesktopEnvironment::Gnome => seq![
            ".config/dconf/user"@,
            ".config/gnome-shell"@,
            ".local/share/gnome-shell"@,
        ],
        DesktopEnvironment::Kde => seq![
            ".config/kdeglobals"@,
            ".config/kwinrc"@,
            ".config/plasma-org.kde.plasma.desktop-appletsrc"@,
            ".config/plasmarc"@,
            ".local/share/plasma"@,
        ],
        DesktopEnvironment::Cosmic => seq![".config/cosmic"@, ".local/state/cosmic"@],
        DesktopEnvironment::Niri => seq![".config/niri"@],
        DesktopEnvironment::Xfce => seq![
            ".config/xfce4"@,
            ".config/Thunar"@,
            ".local/share/xfce4"@,
        ],
    }
}

/// The paths below a user's home that hold a desktop's configuration.
pub fn stash_paths(de: DesktopEnvironment) -> (r: Vec<String>)
    ensures
        r.deep_view() == paths_of(de),
{
    let r: Vec<String> = match de {
        DesktopEnvironment::Gnome => owned_all(
            &[".config/dconf/user", ".config/gnome-shell", ".local/share/gnome-shell"],
        ),
        DesktopEnvironment::Kde => owned_all(
            &[
                ".config/kdeglobals",
                ".config/kwinrc",
                ".config/plasma-org.kde.plasma.desktop-appletsrc",
                ".config/plasmarc",
                ".local/share/plasma",
            ],
        ),
        DesktopEnvironment::Cosmic => owned_all(&[".config/cosmic", ".local/state/cosmic"]),
        DesktopEnvironment::Niri => owned_all(&[".config/niri"]),
        DesktopEnvironment::Xfce => owned_all(
            &[".config/xfce4", ".config/Thunar", ".local/share/xfce4"],
        ),
    };
    assert(r.deep_view() =~= paths_of(de));
    r
}

/// A path of a desktop's configuration, with whether there is something to
/// move.
#[derive(Debug, Clone, PartialEq, Eq)]
pub struct PlanEntry {
    pub relative_path: String,
    pub source_exists: bool,
}

/// What a [`PlanEntry`] holds.
#[verifier::ext_equal]
pub struct PlanEntryView {
    pub relative_path: Seq<char>,
    pub source_exists: bool,
}

impl DeepView for PlanEntry {
    type V = PlanEntryView;

    open spec fn deep_view(&self) -> PlanEntryView {
        PlanEntryView { relative_path: self.relative_path@, source_exists: self.source_exists }
    }
}

/// The entries for the paths: each exists where `existing` holds it below
/// `base`.
pub open spec fn entries_for(
    paths: Seq<Seq<char>>,
    base: Seq<char>,
    existing: Seq<Seq<char>>,
) -> Seq<PlanEntryView> {
    paths.map_values(
        |p: Seq<char>|
            PlanEntryView {
                relative_path: p,
                source_exists: existing.contains(join_path(base, p)),
            },
    )
}

/// The entries for the paths of a desktop.
fn plan_entries(de: DesktopEnvironment, base: &str, existing: &[String]) -> (r: Vec<PlanEntry>)
    ensures
        r.deep_view() == entries_for(paths_of(de), base@, existing.deep_view()),
{
    let paths: Vec<String> = stash_paths(de);
    let ghost all = paths.deep_view();
    let ghost want = entries_for(all, base@, existing.deep_view());
    let mut r: Vec<PlanEntry> = Vec::new();
    let mut i: usize = 0;
    while i < paths.len()
        invariant
            all == paths.deep_view(),
            want == entries_for(all, base@, existing.deep_view()),
            i <= paths@.len(),
            r.deep_view() == want.take(i as int),
        decreases paths@.len() - i,
    {
        let ghost before = r.deep_view();
        let full: String = path_join(base, paths[i].as_str());
        let source_exists: bool = list_contains(existing, full.as_str());
        let entry: PlanEntry = PlanEntry { relative_path: paths[i].clone(), source_exists };
        r.push(entry);
        proof {
            assert(all[i as int] == paths@[i as int]@);
            assert(r.deep_view() =~= before.push(entry.deep_view()));
            assert(r.deep_view() =~= want.take(i + 1));
        }
        i = i + 1;
    }
    assert(want.take(i as int) =~= want);
    r
}

/// What a stash would move for a desktop: `existing` are the paths that exist.
pub fn compute_stash_plan(de: DesktopEnvironment, home: &str, existing: &[String]) -> (r: Vec<
    PlanEntry,
>)
    ensures
        r.deep_view() == entries_for(paths_of(de), home@, existing.deep_view()),
{
    plan_entries(de, home, existing)
}

/// What a restore would move back for a desktop from the stashes under
/// `stash_root`: `existing` are the paths that exist.
pub fn compute_restore_plan(de: DesktopEnvironment, stash_root: &str, existing: &[String]) -> (r:
    Vec<PlanEntry>)
    ensures
        r.deep_view() == entries_for(
            paths_of(de),
            join_path(stash_root@, desktop_name(de)),
            existing.deep_view(),
        ),
{
    let root: String = path_join(stash_root, de_dir_name(de));
    plan_entries(de, root.as_str(), existing)
}

/// A move of a file or a directory.
#[derive(Debug, Clone, PartialEq, Eq)]
pub struct Move {
    pub relative_path: String,
    pub from: String,
    pub to: String,
}

/// What a [`Move`] holds.
#[verifier::ext_equal]
pub struct MoveView {
    pub relative_path: Seq<char>,
    pub from: Seq<char>,
    pub to: Seq<char>,
}

impl DeepView for Move {
    type V = MoveView;

    open spec fn deep_view(&self) -> MoveView {
        MoveView { relative_path: self.relative_path@, from: self.from@, to: self.to@ }
    }
}

/// The moves of what exists, from below one directory to below another.
pub open spec fn moves_for(
    entries: Seq<PlanEntryView>,
    from: Seq<char>,
    to: Seq<char>,
) -> Seq<MoveView>
    decreases entries.len(),
{
    if entries.len() == 0 {
        Seq::empty()
    } else {
        let e = entries.last();
        let done = moves_for(entries.drop_last(), from, to);
        if e.source_exists {
            done.push(
                MoveView {
                    relative_path: e.relative_path,
                    from: join_path(from, e.relative_path),
                    to: join_path(to, e.relative_path),
                },
            )
        } else {
            done
        }
    }
}

/// The moves of what exists.
fn planned_moves(entries: &[PlanEntry], from: &str, to: &str) -> (r: Vec<Move>)
    ensures
        r.deep_view() == moves_for(entries.deep_view(), from@, to@),
{
    let ghost all = entries.deep_view();
    let mut r: Vec<Move> = Vec::new();
    let mut i: usize = 0;
    assert(r.deep_view() =~= moves_for(all.take(0), from@, to@));
    while i < entries.len()
        invariant
            all == entries.deep_view(),
            i <= entries@.len(),
            r.deep_view() == moves_for(all.take(i as int), from@, to@),
        decreases entries@.len() - i,
    {
        proof {
            assert(all[i as int] == entries@[i as int].deep_view());
            assert(all.take(i + 1).drop_last() =~= all.take(i as int));
            assert(all.take(i + 1).last() == all[i as int]);
        }
        let ghost before = r.deep_view();
        if entries[i].source_exists {
            let rel: &str = entries[i].relative_path.as_str();
            let m: Move = Move {
                relative_path: rel.to_owned(),
                from: path_join(from, rel),
                to: path_join(to, rel),
            };
            r.push(m);
            assert(r.deep_view() =~= before.push(m.deep_view()));
        }
        i = i + 1;
    }
    assert(all.take(i as int) =~= all);
    r
}

/// The moves of a stash.
pub open spec fn stash_moves(
    de: DesktopEnvironment,
    home: Seq<char>,
    stash_root: Seq<char>,
    existing: Seq<Seq<char>>,
) -> Seq<MoveView> {
    moves_for(
        entries_for(paths_of(de), home, existing),
        home,
        join_path(stash_root, desktop_name(de)),
    )
}

/// The moves of a restore.
pub open spec fn restore_moves(
    de: DesktopEnvironment,
    home: Seq<char>,
    stash_root: Seq<char>,
    existing: Seq<Seq<char>>,
) -> Seq<MoveView> {
    let root = join_path(stash_root, desktop_name(de));
    moves_for(entries_for(paths_of(de), root, existing), root, home)
}

/// The moves that put a desktop's configuration away, of what exists.
pub fn stash(de: DesktopEnvironment, home: &str, stash_root: &str, existing: &[String]) -> (r: Vec<
    Move,
>)
    ensures
        r.deep_view() == stash_moves(de, home@, stash_root@, existing.deep_view()),
{
    let entries: Vec<PlanEntry> = compute_stash_plan(de, home, existing);
    let root: String = path_join(stash_root, de_dir_name(de));
    planned_moves(entries.as_slice(), home, root.as_str())
}

/// The moves that bring a desktop's configuration back, of what was put away.
pub fn restore(de: DesktopEnvironment, home: &str, stash_root: &str, existing: &[String]) -> (r:
    Vec<Move>)
    ensures
        r.deep_view() == restore_moves(de, home@, stash_root@, existing.deep_view()),
{
    let entries: Vec<PlanEntry> = compute_restore_plan(de, stash_root, existing);
    let root: String = path_join(stash_root, de_dir_name(de));
    planned_moves(entries.as_slice(), root.as_str(), home)
}

/// Where the moves lead.
pub open spec fn destinations(moves: Seq<MoveView>) -> Seq<Seq<char>> {
    moves.map_values(|m: MoveView| m.to)
}

/// The moves, each the other way round.
pub open spec fn reversed(moves: Seq<MoveView>) -> Seq<MoveView> {
    moves.map_values(
        |m: MoveView| MoveView { relative_path: m.relative_path, from: m.to, to: m.from },
    )
}

/// A move leads to a place below the directory, and is for a path that exists.
pub proof fn lemma_moves(
    paths: Seq<Seq<char>>,
    from: Seq<char>,
    to: Seq<char>,
    existing: Seq<Seq<char>>,
    k: int,
)
    requires
        0 <= k < moves_for(entries_for(paths, from, existing), from, to).len(),
    ensures
        ({
            let m = moves_for(entries_for(paths, from, existing), from, to)[k];
            &&& m.to == join_path(to, m.relative_path)
            &&& existing.contains(m.from)
            &&& paths.contains(m.relative_path)
        }),
    decreases paths.len(),
{
    let all = entries_for(paths, from, existing);
    let d = entries_for(paths.drop_last(), from, existing);
    assert(all.drop_last() =~= d);
    let done = moves_for(d, from, to);
    if k < done.len() {
        lemma_moves(paths.drop_last(), from, to, existing, k);
        let p = done[k].relative_path;
        let j = choose|j: int| 0 <= j < paths.drop_last().len() && paths.drop_last()[j] == p;
        assert(paths[j] == p);
    } else {
        assert(paths[paths.len() - 1] == all.last().relative_path);
    }
}

/// Whether a path is one below a directory: not absolute.
pub open spec fn is_relative(p: Seq<char>) -> bool {
    p.len() > 0 && p[0] != '/'
}

/// Paths below one directory differ where they differ below it.
proof fn lemma_join_injective(base: Seq<char>, a: Seq<char>, b: Seq<char>)
    requires
        is_relative(a),
        is_relative(b),
        join_path(base, a) == join_path(base, b),
    ensures
        a == b,
{
    reveal_strlit("/");
    let x = join_path(base, a);
    let n = x.len() - a.len();
    assert(x.skip(n) =~= a);
    assert(x.skip(x.len() - b.len()) =~= b);
}

/// Restoring the paths below `to` brings back what the moves took there.
proof fn lemma_restore(
    paths: Seq<Seq<char>>,
    home: Seq<char>,
    root: Seq<char>,
    existing: Seq<Seq<char>>,
    stashed: Seq<Seq<char>>,
)
    requires
        forall|i: int| 0 <= i < paths.len() ==> is_relative(#[trigger] paths[i]),
        forall|i: int|
            0 <= i < paths.len() ==> (existing.contains(join_path(home, #[trigger] paths[i]))
                <==> stashed.contains(join_path(root, paths[i]))),
    ensures
        moves_for(entries_for(paths, root, stashed), root, home) == reversed(
            moves_for(entries_for(paths, home, existing), home, root),
        ),
    decreases paths.len(),
{
    if paths.len() > 0 {
        let d = paths.drop_last();
        assert forall|i: int| 0 <= i < d.len() implies is_relative(#[trigger] d[i]) && (
        existing.contains(join_path(home, d[i])) <==> stashed.contains(join_path(root, d[i]))) by {
            assert(d[i] == paths[i]);
        }
        lemma_restore(d, home, root, existing, stashed);
        let there = entries_for(paths, home, existing);
        let back = entries_for(paths, root, stashed);
        assert(there.drop_last() =~= entries_for(d, home, existing));
        assert(back.drop_last() =~= entries_for(d, root, stashed));
        assert(paths.last() == paths[paths.len() - 1]);
        assert(there.last().source_exists == back.last().source_exists);
        assert(moves_for(back, root, home) =~= reversed(moves_for(there, home, root)));
    } else {
        assert(moves_for(entries_for(paths, root, stashed), root, home) =~= reversed(
            moves_for(entries_for(paths, home, existing), home, root),
        ));
    }
}

/// The paths of a desktop's configuration are relative, and in hidden places.
proof fn lemma_paths_are_relative(de: DesktopEnvironment, i: int)
    requires
        0 <= i < paths_of(de).len(),
    ensures
        is_relative(paths_of(de)[i]),
        paths_of(de)[i][0] == '.',
{
    reveal_strlit(".config/dconf/user");
    reveal_strlit(".config/gnome-shell");
    reveal_strlit(".local/share/gnome-shell");
    reveal_strlit(".config/kdeglobals");
    reveal_strlit(".config/kwinrc");
    reveal_strlit(".config/plasma-org.kde.plasma.desktop-appletsrc");
    reveal_strlit(".config/plasmarc");
    reveal_strlit(".local/share/plasma");
    reveal_strlit(".config/cosmic");
    reveal_strlit(".local/state/cosmic");
    reveal_strlit(".config/niri");
    reveal_strlit(".config/xfce4");
    reveal_strlit(".config/Thunar");
    reveal_strlit(".local/share/xfce4");
}

/// Every desktop has configuration to move, all of it in hidden places below
/// the home.
pub proof fn law_every_desktop_has_paths(de: DesktopEnvironment)
    ensures
        paths_of(de).len() > 0,
        forall|i: int|
            0 <= i < paths_of(de).len() ==> (#[trigger] paths_of(de)[i]).len() > 0 && paths_of(
                de,
            )[i][0] == '.',
{
    assert forall|i: int| 0 <= i < paths_of(de).len() implies (#[trigger] paths_of(de)[i]).len() > 0
        && paths_of(de)[i][0] == '.' by {
        lemma_paths_are_relative(de, i);
    }
}

/// What a stash moved, a restore moves back: where the stash holds what the
/// moves took there, the moves of the restore are those of the stash, each the
/// other way round.
pub proof fn law_restore_undoes_stash(
    de: DesktopEnvironment,
    home: Seq<char>,
    stash_root: Seq<char>,
    existing: Seq<Seq<char>>,
)
    ensures
        restore_moves(
            de,
            home,
            stash_root,
            destinations(stash_moves(de, home, stash_root, existing)),
        ) == reversed(stash_moves(de, home, stash_root, existing)),
{
    let paths = paths_of(de);
    let root = join_path(stash_root, desktop_name(de));
    let moves = stash_moves(de, home, stash_root, existing);
    let stashed = destinations(moves);
    assert forall|i: int| 0 <= i < paths.len() implies is_relative(#[trigger] paths[i]) by {
        lemma_paths_are_relative(de, i);
    }
    assert forall|i: int| 0 <= i < paths.len() implies (existing.contains(
        join_path(home, #[trigger] paths[i]),
    ) <==> stashed.contains(join_path(root, paths[i]))) by {
        let p = paths[i];
        if existing.contains(join_path(home, p)) {
            lemma_move_is_made(paths, home, root, existing, i);
        }
        if stashed.contains(join_path(root, p)) {
            let k = choose|k: int| 0 <= k < stashed.len() && stashed[k] == join_path(root, p);
            lemma_moves(paths, home, root, existing, k);
            let q = moves[k].relative_path;
            let j = choose|j: int| 0 <= j < paths.len() && paths[j] == q;
            lemma_paths_are_relative(de, j);
            lemma_paths_are_relative(de, i);
            lemma_join_injective(root, q, p);
            lemma_move_source(paths, home, root, existing, k);
        }
    }
    lemma_restore(paths, home, root, existing, stashed);
}

/// A move starts where its path is below the directory.
proof fn lemma_move_source(
    paths: Seq<Seq<char>>,
    from: Seq<char>,
    to: Seq<char>,
    existing: Seq<Seq<char>>,
    k: int,
)
    requires
        0 <= k < moves_for(entries_for(paths, from, existing), from, to).len(),
    ensures
        ({
            let m = moves_for(entries_for(paths, from, existing), from, to)[k];
            m.from == join_path(from, m.relative_path) && existing.contains(m.from)
        }),
    decreases paths.len(),
{
    let all = entries_for(paths, from, existing);
    let d = entries_for(paths.drop_last(), from, existing);
    assert(all.drop_last() =~= d);
    if k < moves_for(d, from, to).len() {
        lemma_move_source(paths.drop_last(), from, to, existing, k);
    }
}

/// A path that exists is moved.
proof fn lemma_move_is_made(
    paths: Seq<Seq<char>>,
    from: Seq<char>,
    to: Seq<char>,
    existing: Seq<Seq<char>>,
    i: int,
)
    requires
        0 <= i < paths.len(),
        existing.contains(join_path(from, paths[i])),
    ensures
        destinations(moves_for(entries_for(paths, from, existing), from, to)).contains(
            join_path(to, paths[i]),
        ),
    decreases paths.len(),
{
    let all = entries_for(paths, from, existing);
    let d = entries_for(paths.drop_last(), from, existing);
    assert(all.drop_last() =~= d);
    let done = destinations(moves_for(d, from, to));
    let full = destinations(moves_for(all, from, to));
    if i < paths.len() - 1 {
        lemma_move_is_made(paths.drop_last(), from, to, existing, i);
        let j = choose|j: int| 0 <= j < done.len() && done[j] == join_path(to, paths[i]);
        assert(full[j] == join_path(to, paths[i]));
    } else {
        assert(all.last().source_exists);
        assert(full[full.len() - 1] == join_path(to, paths[i]));
    }
}

/// What is found under each path once the moves are made, in their order.
pub open spec fn after_moves(
    files: Map<Seq<char>, Seq<u8>>,
    moves: Seq<MoveView>,
) -> Map<Seq<char>, Seq<u8>>
    decreases moves.len(),
{
    if moves.len() == 0 {
        files
    } else {
        let done = after_moves(files, moves.drop_last());
        let m = moves.last();
        done.remove(m.from).insert(m.to, done[m.from])
    }
}

/// Whether one of the moves starts at the path.
pub open spec fn is_moved(moves: Seq<MoveView>, p: Seq<char>) -> bool {
    exists|k: int| 0 <= k < moves.len() && (#[trigger] moves[k]).from == p
}

/// Whether each move starts where something is and leads to a free place, no
/// two of them from or to the same path.
pub open spec fn are_clear(files: Map<Seq<char>, Seq<u8>>, moves: Seq<MoveView>) -> bool {
    &&& forall|k: int|
        0 <= k < moves.len() ==> files.contains_key((#[trigger] moves[k]).from)
            && !files.contains_key(moves[k].to)
    &&& forall|j: int, k: int|
        0 <= j < k < moves.len() ==> (#[trigger] moves[j]).from != (#[trigger] moves[k]).from
            && moves[j].to != moves[k].to
}

/// Clear moves take each content along and leave the rest alone.
proof fn lemma_after_moves(files: Map<Seq<char>, Seq<u8>>, moves: Seq<MoveView>)
    requires
        are_clear(files, moves),
    ensures
        forall|k: int|
            0 <= k < moves.len() ==> after_moves(files, moves).contains_key(
                (#[trigger] moves[k]).to,
            ) && after_moves(files, moves)[moves[k].to] == files[moves[k].from],
        forall|p: Seq<char>|
            files.contains_key(p) ==> if is_moved(moves, p) {
                !#[trigger] after_moves(files, moves).contains_key(p)
            } else {
                after_moves(files, moves).contains_key(p) && after_moves(files, moves)[p]
                    == files[p]
            },
        forall|p: Seq<char>| #[trigger]
            after_moves(files, moves).contains_key(p) && !files.contains_key(p) ==> exists|k: int|
                0 <= k < moves.len() && (#[trigger] moves[k]).to == p,
    decreases moves.len(),
{
    if moves.len() > 0 {
        let d = moves.drop_last();
        let m = moves.last();
        let n = moves.len() - 1;
        assert(m == moves[n]);
        assert forall|k: int| 0 <= k < d.len() implies #[trigger] d[k] == moves[k] by {}
        lemma_after_moves(files, d);
        let done = after_moves(files, d);
        let after = after_moves(files, moves);
        assert(!is_moved(d, m.from));
        assert(done.contains_key(m.from) && done[m.from] == files[m.from]);
        assert forall|k: int| 0 <= k < moves.len() implies after.contains_key(
            (#[trigger] moves[k]).to,
        ) && after[moves[k].to] == files[moves[k].from] by {
            if k < n {
                assert(d[k] == moves[k]);
                assert(done.contains_key(d[k].to));
                assert(moves[k].to != m.from);
            }
        }
        assert forall|p: Seq<char>| files.contains_key(p) implies if is_moved(moves, p) {
            !#[trigger] after.contains_key(p)
        } else {
            after.contains_key(p) && after[p] == files[p]
        } by {
            assert(p != m.to);
            if is_moved(moves, p) {
                let k = choose|k: int| 0 <= k < moves.len() && (#[trigger] moves[k]).from == p;
                if k < n {
                    assert(d[k].from == p);
                    assert(is_moved(d, p));
                    assert(!done.contains_key(p));
                }
            } else {
                assert(moves[n].from != p);
                if is_moved(d, p) {
                    let k = choose|k: int| 0 <= k < d.len() && (#[trigger] d[k]).from == p;
                    assert(moves[k].from == p);
                }
                assert(done.contains_key(p));
            }
        }
        assert forall|p: Seq<char>| #[trigger]
            after.contains_key(p) && !files.contains_key(p) implies exists|k: int|
            0 <= k < moves.len() && (#[trigger] moves[k]).to == p by {
            if p == m.to {
                assert(moves[n].to == p);
            } else {
                assert(done.contains_key(p));
                let k = choose|k: int| 0 <= k < d.len() && (#[trigger] d[k]).to == p;
                assert(moves[k].to == p);
            }
        }
    }
}

/// The moves are for paths that stand in the order of the paths.
proof fn lemma_moves_in_order(
    paths: Seq<Seq<char>>,
    from: Seq<char>,
    to: Seq<char>,
    existing: Seq<Seq<char>>,
)
    requires
        paths.no_duplicates(),
    ensures
        forall|j: int, k: int|
            0 <= j < k < moves_for(entries_for(paths, from, existing), from, to).len() ==> (
            #[trigger] moves_for(entries_for(paths, from, existing), from, to)[j]).relative_path
                != (#[trigger] moves_for(
                entries_for(paths, from, existing),
                from,
                to,
            )[k]).relative_path,
    decreases paths.len(),
{
    if paths.len() > 0 {
        let all = entries_for(paths, from, existing);
        let d = paths.drop_last();
        let shorter = entries_for(d, from, existing);
        assert(all.drop_last() =~= shorter);
        lemma_moves_in_order(d, from, to, existing);
        let done = moves_for(shorter, from, to);
        let moves = moves_for(all, from, to);
        assert forall|j: int, k: int| 0 <= j < k < moves.len() implies (
        #[trigger] moves[j]).relative_path != (#[trigger] moves[k]).relative_path by {
            assert(moves[j] == done[j]);
            if k < done.len() {
                assert(moves[k] == done[k]);
            } else {
                lemma_moves(d, from, to, existing, j);
                let i = choose|i: int| 0 <= i < d.len() && d[i] == done[j].relative_path;
                assert(paths[i] == d[i]);
                assert(moves[k].relative_path == paths[paths.len() - 1]);
            }
        }
    }
}

/// No path stands twice in a desktop's configuration.
proof fn lemma_paths_differ(de: DesktopEnvironment)
    ensures
        paths_of(de).no_duplicates(),
{
    reveal_strlit(".config/dconf/user");
    reveal_strlit(".config/gnome-shell");
    reveal_strlit(".local/share/gnome-shell");
    reveal_strlit(".config/kdeglobals");
    reveal_strlit(".config/kwinrc");
    reveal_strlit(".config/plasma-org.kde.plasma.desktop-appletsrc");
    reveal_strlit(".config/plasmarc");
    reveal_strlit(".local/share/plasma");
    reveal_strlit(".config/cosmic");
    reveal_strlit(".local/state/cosmic");
    reveal_strlit(".config/niri");
    reveal_strlit(".config/xfce4");
    reveal_strlit(".config/Thunar");
    reveal_strlit(".local/share/xfce4");
    let paths = paths_of(de);
    assert forall|i: int, j: int| 0 <= i < paths.len() && 0 <= j < paths.len() && i
        != j implies paths[i] != paths[j] by {
        assert(paths[i].len() != paths[j].len());
    }
}

/// The moves of what exists are clear where nothing is at their destinations.
proof fn lemma_moves_are_clear(
    de: DesktopEnvironment,
    from: Seq<char>,
    to: Seq<char>,
    existing: Seq<Seq<char>>,
    files: Map<Seq<char>, Seq<u8>>,
)
    requires
        forall|p: Seq<char>| #[trigger] existing.contains(p) ==> files.contains_key(p),
        forall|k: int|
            0 <= k < moves_for(entries_for(paths_of(de), from, existing), from, to).len()
                ==> !files.contains_key(
                (#[trigger] moves_for(
                    entries_for(paths_of(de), from, existing),
                    from,
                    to,
                )[k]).to,
            ),
    ensures
        are_clear(files, moves_for(entries_for(paths_of(de), from, existing), from, to)),
{
    let paths = paths_of(de);
    let moves = moves_for(entries_for(paths, from, existing), from, to);
    lemma_paths_differ(de);
    lemma_moves_in_order(paths, from, to, existing);
    assert forall|k: int| 0 <= k < moves.len() implies files.contains_key(
        (#[trigger] moves[k]).from,
    ) && !files.contains_key(moves[k].to) by {
        lemma_moves(paths, from, to, existing, k);
    }
    assert forall|j: int, k: int| 0 <= j < k < moves.len() implies (#[trigger] moves[j]).from != (
    #[trigger] moves[k]).from && moves[j].to != moves[k].to by {
        lemma_moves(paths, from, to, existing, j);
        lemma_moves(paths, from, to, existing, k);
        lemma_move_source(paths, from, to, existing, j);
        lemma_move_source(paths, from, to, existing, k);
        let a = moves[j].relative_path;
        let b = moves[k].relative_path;
        assert(a != b);
        let x = choose|x: int| 0 <= x < paths.len() && paths[x] == a;
        let y = choose|y: int| 0 <= y < paths.len() && paths[y] == b;
        lemma_paths_are_relative(de, x);
        lemma_paths_are_relative(de, y);
        if moves[j].from == moves[k].from {
            lemma_join_injective(from, a, b);
        }
        if moves[j].to == moves[k].to {
            lemma_join_injective(to, a, b);
        }
    }
}

/// A stash relocates and destroys nothing: whatever was under a path is under
/// it still, or where its move led. A place in the stash that an earlier stash
/// still holds would be overwritten; none of those that the moves lead to may
/// hold anything.
pub proof fn law_stash_destroys_nothing(
    de: DesktopEnvironment,
    home: Seq<char>,
    stash_root: Seq<char>,
    existing: Seq<Seq<char>>,
    files: Map<Seq<char>, Seq<u8>>,
)
    requires
        forall|p: Seq<char>| #[trigger] existing.contains(p) ==> files.contains_key(p),
        forall|k: int|
            0 <= k < stash_moves(de, home, stash_root, existing).len() ==> !files.contains_key(
                (#[trigger] stash_moves(de, home, stash_root, existing)[k]).to,
            ),
    ensures
        ({
            let moves = stash_moves(de, home, stash_root, existing);
            let after = after_moves(files, moves);
            &&& forall|k: int|
                0 <= k < moves.len() ==> after.contains_key((#[trigger] moves[k]).to)
                    && after[moves[k].to] == files[moves[k].from]
            &&& forall|p: Seq<char>|
                files.contains_key(p) && !is_moved(moves, p) ==> #[trigger] after.contains_key(p)
                    && after[p] == files[p]
        }),
{
    let root = join_path(stash_root, desktop_name(de));
    let moves = stash_moves(de, home, stash_root, existing);
    lemma_moves_are_clear(de, home, root, existing, files);
    lemma_after_moves(files, moves);
}

/// A restore behind a stash leaves everything under its path again: where the
/// places that the stash moves to were free, all files are as they were.
pub proof fn law_stash_and_restore_change_nothing(
    de: DesktopEnvironment,
    home: Seq<char>,
    stash_root: Seq<char>,
    existing: Seq<Seq<char>>,
    files: Map<Seq<char>, Seq<u8>>,
)
    requires
        forall|p: Seq<char>| #[trigger] existing.contains(p) ==> files.contains_key(p),
        forall|k: int|
            0 <= k < stash_moves(de, home, stash_root, existing).len() ==> !files.contains_key(
                (#[trigger] stash_moves(de, home, stash_root, existing)[k]).to,
            ),
    ensures
        ({
            let moves = stash_moves(de, home, stash_root, existing);
            let back = restore_moves(de, home, stash_root, destinations(moves));
            after_moves(after_moves(files, moves), back) == files
        }),
{
    let root = join_path(stash_root, desktop_name(de));
    let moves = stash_moves(de, home, stash_root, existing);
    let back = restore_moves(de, home, stash_root, destinations(moves));
    law_restore_undoes_stash(de, home, stash_root, existing);
    lemma_moves_are_clear(de, home, root, existing, files);
    lemma_after_moves(files, moves);
    let away = after_moves(files, moves);
    assert forall|k: int| 0 <= k < back.len() implies away.contains_key((#[trigger] back[k]).from)
        && !away.contains_key(back[k].to) by {
        assert(back[k].from == moves[k].to && back[k].to == moves[k].from);
        assert(is_moved(moves, moves[k].from));
        assert(files.contains_key(moves[k].from));
    }
    assert forall|j: int, k: int| 0 <= j < k < back.len() implies (#[trigger] back[j]).from != (
    #[trigger] back[k]).from && back[j].to != back[k].to by {
        assert(back[j].from == moves[j].to && back[j].to == moves[j].from);
        assert(back[k].from == moves[k].to && back[k].to == moves[k].from);
    }
    lemma_after_moves(away, back);
    let home_again = after_moves(away, back);
    assert forall|p: Seq<char>| files.contains_key(p) implies #[trigger] home_again.contains_key(p)
        && home_again[p] == files[p] by {
        if is_moved(moves, p) {
            let k = choose|k: int| 0 <= k < moves.len() && (#[trigger] moves[k]).from == p;
            assert(back[k].from == moves[k].to && back[k].to == p);
            assert(away[moves[k].to] == files[p]);
        } else {
            assert(away.contains_key(p));
            if is_moved(back, p) {
                let k = choose|k: int| 0 <= k < back.len() && (#[trigger] back[k]).from == p;
                assert(moves[k].to == p);
            }
        }
    }
    assert forall|p: Seq<char>| #[trigger] home_again.contains_key(p) implies files.contains_key(
        p,
    ) by {
        if !files.contains_key(p) {
            if away.contains_key(p) {
                let k = choose|k: int| 0 <= k < moves.len() && (#[trigger] moves[k]).to == p;
                assert(back[k].from == p);
                assert(is_moved(back, p));
            } else {
                let k = choose|k: int| 0 <= k < back.len() && (#[trigger] back[k]).to == p;
                assert(moves[k].from == p);
            }
        }
    }
    assert(home_again =~= files);
}

/// One human account, with the home whose configuration is moved.
#[derive(Debug, Clone, PartialEq, Eq)]
pub struct UserHome {
    pub name: String,
    pub uid: u32,
    pub home: String,
}

/// What a [`UserHome`] holds.
#[verifier::ext_equal]
pub struct UserHomeView {
    pub name: Seq<char>,
    pub uid: u32,
    pub home: Seq<char>,
}

impl DeepView for UserHome {
    type V = UserHomeView;

    open spec fn deep_view(&self) -> UserHomeView {
        UserHomeView { name: self.name@, uid: self.uid, home: self.home@ }
    }
}

/// The least id of a human account.
pub const FIRST_HUMAN_UID: u32 = 1000;

/// The id of the account that stands for nobody.
pub const NOBODY_UID: u32 = 65534;

/// Whether the shell lets nobody log in.
pub open spec fn is_nologin(shell: Seq<char>) -> bool {
    ||| shell == "/sbin/nologin"@
    ||| shell == "/usr/sbin/nologin"@
    ||| shell == "/bin/false"@
    ||| shell == "/usr/bin/false"@
}

/// The human account that a line of `/etc/passwd` describes: one that can log
/// in, and has a home of its own.
pub open spec fn user_in(line: Seq<char>) -> Option<UserHomeView> {
    let f = split(line, ':');
    if f.len() < 6 {
        None
    } else {
        let name = trim(f[0]);
        let home = trim(f[5]);
        let shell = if f.len() > 6 {
            trim(f[6])
        } else {
            Seq::empty()
        };
        match parse_number(trim(f[2]), u32::MAX as nat) {
            None => None,
            Some(uid) => if name.len() == 0 || begins(name, "#"@) || uid < FIRST_HUMAN_UID || uid
                == NOBODY_UID || is_nologin(shell) || home == "/"@ || !begins(home, "/"@) {
                None
            } else {
                Some(UserHomeView { name, uid: uid as u32, home })
            },
        }
    }
}

/// The human accounts that the lines describe.
pub open spec fn users_in(ls: Seq<Seq<char>>) -> Seq<UserHomeView>
    decreases ls.len(),
{
    if ls.len() == 0 {
        Seq::empty()
    } else {
        match user_in(ls.last()) {
            Some(u) => users_in(ls.drop_last()).push(u),
            None => users_in(ls.drop_last()),
        }
    }
}

/// The human account that a line describes.
fn parse_user(line: &str) -> (r: Option<UserHome>)
    ensures
        r.deep_view() == user_in(line@),
{
    let f: Vec<String> = split_at(line, ':');
    let ghost fs = f.deep_view();
    if f.len() < 6 {
        return None;
    }
    assert(fs[0] == f@[0]@);
    assert(fs[2] == f@[2]@);
    assert(fs[5] == f@[5]@);
    let name: String = trimmed(f[0].as_str());
    let id: String = trimmed(f[2].as_str());
    let home: String = trimmed(f[5].as_str());
    let shell: String = if f.len() > 6 {
        assert(fs[6] == f@[6]@);
        trimmed(f[6].as_str())
    } else {
        String::new()
    };
    let uid: u32 = match parse_u32(id.as_str()) {
        Some(n) => n,
        None => {
            return None;
        },
    };
    if name.as_str().is_empty() || starts_with(name.as_str(), "#") {
        return None;
    }
    if uid < FIRST_HUMAN_UID || uid == NOBODY_UID {
        return None;
    }
    if same(shell.as_str(), "/sbin/nologin") || same(shell.as_str(), "/usr/sbin/nologin") || same(
        shell.as_str(),
        "/bin/false",
    ) || same(shell.as_str(), "/usr/bin/false") {
        return None;
    }
    if same(home.as_str(), "/") || !starts_with(home.as_str(), "/") {
        return None;
    }
    Some(UserHome { name, uid, home })
}

/// The human accounts in the text of `/etc/passwd` whose configuration is
/// moved.
pub fn parse_user_homes(passwd_content: &str) -> (r: Vec<UserHome>)
    ensures
        r.deep_view() == users_in(lines(passwd_content@)),
{
    let ls: Vec<String> = lines_of(passwd_content);
    let ghost all = ls.deep_view();
    let mut r: Vec<UserHome> = Vec::new();
    let mut i: usize = 0;
    assert(r.deep_view() =~= users_in(all.take(0)));
    while i < ls.len()
        invariant
            all == ls.deep_view(),
            i <= ls@.len(),
            r.deep_view() == users_in(all.take(i as int)),
        decreases ls@.len() - i,
    {
        proof {
            assert(all[i as int] == ls@[i as int]@);
            assert(all.take(i + 1).drop_last() =~= all.take(i as int));
            assert(all.take(i + 1).last() == all[i as int]);
        }
        let ghost before = r.deep_view();
        match parse_user(ls[i].as_str()) {
            Some(u) => {
                r.push(u);
                assert(r.deep_view() =~= before.push(u.deep_view()));
            },
            None => {},
        }
        i = i + 1;
    }
    assert(all.take(i as int) =~= all);
    r
}

/// The preferences that have a meaning on every desktop.
#[derive(Debug, Clone, PartialEq, Eq)]
pub struct PortableSubset {
    pub wallpaper_path: Option<String>,
    pub dark_mode: Option<bool>,
    pub accent_color: Option<String>,
    pub locale: Option<String>,
    pub keyboard_layout: Option<String>,
}

/// What a [`PortableSubset`] holds.
#[verifier::ext_equal]
pub struct PortableSubsetView {
    pub wallpaper_path: Option<Seq<char>>,
    pub dark_mode: Option<bool>,
    pub accent_color: Option<Seq<char>>,
    pub locale: Option<Seq<char>>,
    pub keyboard_layout: Option<Seq<char>>,
}

impl DeepView for PortableSubset {
    type V = PortableSubsetView;

    open spec fn deep_view(&self) -> PortableSubsetView {
        PortableSubsetView {
            wallpaper_path: self.wallpaper_path.deep_view(),
            dark_mode: self.dark_mode,
            accent_color: self.accent_color.deep_view(),
            locale: self.locale.deep_view(),
            keyboard_layout: self.keyboard_layout.deep_view(),
        }
    }
}

/// No preference at all.
pub open spec fn no_preferences() -> PortableSubsetView {
    PortableSubsetView {
        wallpaper_path: None,
        dark_mode: None,
        accent_color: None,
        locale: None,
        keyboard_layout: None,
    }
}

impl Default for PortableSubset {
    fn default() -> (r: Self)
        ensures
            r.deep_view() == no_preferences(),
    {
        PortableSubset {
            wallpaper_path: None,
            dark_mode: None,
            accent_color: None,
            locale: None,
            keyboard_layout: None,
        }
    }
}

/// Whether the line is the heading of a section.
pub open spec fn is_heading(line: Seq<char>) -> bool {
    begins(line, "["@) && finishes(line, "]"@)
}

/// The preferences with one more setting of the section.
pub open spec fn with_setting(
    subset: PortableSubsetView,
    section: Seq<char>,
    key: Seq<char>,
    value: Seq<char>,
) -> PortableSubsetView {
    if section == "org/gnome/desktop/background"@ && key == "picture-uri"@ {
        PortableSubsetView { wallpaper_path: Some(value), ..subset }
    } else if section == "org/gnome/desktop/interface"@ && key == "color-scheme"@ {
        PortableSubsetView { dark_mode: Some(holds(value, "dark"@)), ..subset }
    } else if section == "org/gnome/desktop/interface"@ && key == "accent-color"@ {
        PortableSubsetView { accent_color: Some(value), ..subset }
    } else if section == "org/gnome/system/locale"@ && key == "region"@ || section
        == "org/gnome/desktop/interface"@ && key == "locale"@ {
        PortableSubsetView { locale: Some(value), ..subset }
    } else if section == "org/gnome/desktop/input-sources"@ && key == "sources"@ {
        PortableSubsetView { keyboard_layout: Some(value), ..subset }
    } else {
        subset
    }
}

/// A value without the quotes around it.
pub open spec fn unquoted(value: Seq<char>) -> Seq<char> {
    trim_end_char(trim_start_char(value, '\''), '\'')
}

/// The section that the lines end in, and the preferences that they set.
pub open spec fn preferences_in(ls: Seq<Seq<char>>) -> (Seq<char>, PortableSubsetView)
    decreases ls.len(),
{
    if ls.len() == 0 {
        (Seq::empty(), no_preferences())
    } else {
        let (section, subset) = preferences_in(ls.drop_last());
        let line = trim(ls.last());
        if is_heading(line) {
            (line.subrange(1, line.len() - 1), subset)
        } else {
            match split_once(line, '=') {
                None => (section, subset),
                Some(kv) => (
                    section,
                    with_setting(subset, section, trim(kv.0), unquoted(trim(kv.1))),
                ),
            }
        }
    }
}

/// Sets what the setting says.
fn apply_setting(subset: &mut PortableSubset, section: &str, key: &str, value: String)
    ensures
        final(subset).deep_view() == with_setting(
            old(subset).deep_view(),
            section@,
            key@,
            value@,
        ),
{
    let interface: bool = same(section, "org/gnome/desktop/interface");
    if same(section, "org/gnome/desktop/background") && same(key, "picture-uri") {
        subset.wallpaper_path = Some(value);
    } else if interface && same(key, "color-scheme") {
        subset.dark_mode = Some(contains(value.as_str(), "dark"));
    } else if interface && same(key, "accent-color") {
        subset.accent_color = Some(value);
    } else if same(section, "org/gnome/system/locale") && same(key, "region") || interface && same(
        key,
        "locale",
    ) {
        subset.locale = Some(value);
    } else if same(section, "org/gnome/desktop/input-sources") && same(key, "sources") {
        subset.keyboard_layout = Some(value);
    }
}

/// The preferences in the output of `dconf dump`. What it does not set is left
/// open.
pub fn extract_portable_subset_gnome(dconf_dump: &str) -> (r: PortableSubset)
    ensures
        r.deep_view() == preferences_in(lines(dconf_dump@)).1,
{
    let ls: Vec<String> = lines_of(dconf_dump);
    let ghost all = ls.deep_view();
    let mut subset: PortableSubset = PortableSubset::default();
    let mut section: String = String::new();
    let mut i: usize = 0;
    assert(all.take(0) =~= Seq::empty());
    while i < ls.len()
        invariant
            all == ls.deep_view(),
            i <= ls@.len(),
            preferences_in(all.take(i as int)) == (section@, subset.deep_view()),
        decreases ls@.len() - i,
    {
        proof {
            assert(all[i as int] == ls@[i as int]@);
            assert(all.take(i + 1).drop_last() =~= all.take(i as int));
            assert(all.take(i + 1).last() == all[i as int]);
        }
        let line: String = trimmed(ls[i].as_str());
        if starts_with(line.as_str(), "[") && ends_with(line.as_str(), "]") {
            let n: usize = line.as_str().unicode_len();
            proof {
                lemma_heading(line@);
            }
            let inner: String = tail(line.as_str(), 1);
            section = head(inner.as_str(), n - 2);
            assert(section@ =~= line@.subrange(1, line@.len() - 1));
        } else {
            match cut(line.as_str(), '=') {
                None => {},
                Some((key, value)) => {
                    let key: String = trimmed(key.as_str());
                    let value: String = trimmed(value.as_str());
                    let value: String = trimmed_start_char(value.as_str(), '\'');
                    let value: String = trimmed_end_char(value.as_str(), '\'');
                    apply_setting(&mut subset, section.as_str(), key.as_str(), value);
                },
            }
        }
        i = i + 1;
    }
    assert(all.take(i as int) =~= all);
    subset
}

/// A heading has both brackets.
proof fn lemma_heading(line: Seq<char>)
    requires
        is_heading(line),
    ensures
        line.len() >= 2,
{
    reveal_strlit("[");
    reveal_strlit("]");
    assert(line.take(1)[0] == '[');
    assert(line.skip(line.len() - 1)[0] == ']');
}

/// The command that sets a key of a group in one of KDE's files.
pub open spec fn kwriteconfig(
    file: Seq<char>,
    group: Seq<char>,
    key: Seq<char>,
    value: Seq<char>,
) -> Seq<Seq<char>> {
    seq!["kwriteconfig5"@, "--file"@, file, "--group"@, group, "--key"@, key, value]
}

/// The commands that would set the preferences on KDE.
pub open spec fn kde_commands(subset: PortableSubsetView) -> Seq<Seq<Seq<char>>> {
    (match subset.wallpaper_path {
        Some(w) => seq![
            kwriteconfig(
                "plasma-org.kde.plasma.desktop-appletsrc"@,
                "Wallpaper"@,
                "Image"@,
                w,
            ),
        ],
        None => Seq::empty(),
    }) + (match subset.dark_mode {
        Some(dark) => seq![
            kwriteconfig(
                "kdeglobals"@,
                "General"@,
                "ColorScheme"@,
                if dark {
                    "BreezeDark"@
                } else {
                    "BreezeLight"@
                },
            ),
        ],
        None => Seq::empty(),
    }) + (match subset.keyboard_layout {
        Some(l) => seq![kwriteconfig("kxkbrc"@, "Layout"@, "LayoutList"@, l)],
        None => Seq::empty(),
    })
}

/// The command that sets a key.
fn kwriteconfig_args(file: &str, group: &str, key: &str, value: &str) -> (r: Vec<String>)
    ensures
        r.deep_view() == kwriteconfig(file@, group@, key@, value@),
{
    let r: Vec<String> = owned_all(
        &["kwriteconfig5", "--file", file, "--group", group, "--key", key, value],
    );
    assert(r.deep_view() =~= kwriteconfig(file@, group@, key@, value@));
    r
}

/// The commands that would set the preferences on KDE, one for each that is
/// set. Running them is left to a hook.
pub fn portable_subset_to_kde_kwriteconfig_args(subset: &PortableSubset) -> (r: Vec<Vec<String>>)
    ensures
        r.deep_view() == kde_commands(subset.deep_view()),
{
    let mut r: Vec<Vec<String>> = Vec::new();
    match &subset.wallpaper_path {
        Some(w) => {
            r.push(
                kwriteconfig_args(
                    "plasma-org.kde.plasma.desktop-appletsrc",
                    "Wallpaper",
                    "Image",
                    w.as_str(),
                ),
            );
        },
        None => {},
    }
    match subset.dark_mode {
        Some(dark) => {
            let scheme: &str = if dark {
                "BreezeDark"
            } else {
                "BreezeLight"
            };
            r.push(kwriteconfig_args("kdeglobals", "General", "ColorScheme", scheme));
        },
        None => {},
    }
    match &subset.keyboard_layout {
        Some(l) => {
            r.push(kwriteconfig_args("kxkbrc", "Layout", "LayoutList", l.as_str()));
        },
        None => {},
    }
    assert(r.deep_view() =~= kde_commands(subset.deep_view()));
    r
}

/// The hooks that run before a switch.
pub const PRE_SWITCH_HOOK_DIR: &'static str = "/usr/lib/bootc-rebase/hooks/pre-switch.d";

/// The hooks that run after a switch.
pub const POST_SWITCH_HOOK_DIR: &'static str = "/usr/lib/bootc-rebase/hooks/post-switch.d";

/// An entry of a directory of hooks.
#[derive(Debug, Clone, PartialEq, Eq)]
pub struct HookEntry {
    pub name: String,
    pub is_file: bool,
    /// The permission bits.
    pub mode: u32,
}

/// What a [`HookEntry`] holds.
#[verifier::ext_equal]
pub struct HookEntryView {
    pub name: Seq<char>,
    pub is_file: bool,
    pub mode: u32,
}

impl DeepView for HookEntry {
    type V = HookEntryView;

    open spec fn deep_view(&self) -> HookEntryView {
        HookEntryView { name: self.name@, is_file: self.is_file, mode: self.mode }
    }
}

/// Whether the entry is a hook: a file that may be executed.
pub open spec fn is_hook(e: HookEntryView) -> bool {
    e.is_file && e.mode & 0o111 != 0
}

/// The names of the hooks.
pub open spec fn hook_names(entries: Seq<HookEntryView>) -> Seq<Seq<char>>
    decreases entries.len(),
{
    if entries.len() == 0 {
        Seq::empty()
    } else if is_hook(entries.last()) {
        hook_names(entries.drop_last()).push(entries.last().name)
    } else {
        hook_names(entries.drop_last())
    }
}

/// The hooks of a directory in the order in which they run, from its entries.
pub fn discover_hooks(dir: &str, entries: &[HookEntry]) -> (r: Vec<String>)
    ensures
        r.deep_view() == sorted_texts(hook_names(entries.deep_view())).map_values(
            |n: Seq<char>| join_path(dir@, n),
        ),
{
    let ghost all = entries.deep_view();
    let mut names: Vec<String> = Vec::new();
    let mut i: usize = 0;
    assert(names.deep_view() =~= hook_names(all.take(0)));
    while i < entries.len()
        invariant
            all == entries.deep_view(),
            i <= entries@.len(),
            names.deep_view() == hook_names(all.take(i as int)),
        decreases entries@.len() - i,
    {
        proof {
            assert(all[i as int] == entries@[i as int].deep_view());
            assert(all.take(i + 1).drop_last() =~= all.take(i as int));
            assert(all.take(i + 1).last() == all[i as int]);
        }
        let ghost before = names.deep_view();
        if entries[i].is_file && entries[i].mode & 0o111 != 0 {
            names.push(entries[i].name.clone());
            assert(names.deep_view() =~= before.push(all[i as int].name));
        }
        i = i + 1;
    }
    assert(all.take(i as int) =~= all);
    let sorted: Vec<String> = sort_texts(names.as_slice());
    let ghost order = sorted.deep_view();
    let ghost want = order.map_values(|n: Seq<char>| join_path(dir@, n));
    let mut r: Vec<String> = Vec::new();
    let mut j: usize = 0;
    while j < sorted.len()
        invariant
            order == sorted.deep_view(),
            want == order.map_values(|n: Seq<char>| join_path(dir@, n)),
            j <= sorted@.len(),
            r.deep_view() == want.take(j as int),
        decreases sorted@.len() - j,
    {
        let ghost before = r.deep_view();
        let p: String = path_join(dir, sorted[j].as_str());
        r.push(p);
        proof {
            assert(order[j as int] == sorted@[j as int]@);
            assert(r.deep_view() =~= before.push(p@));
            assert(r.deep_view() =~= want.take(j + 1));
        }
        j = j + 1;
    }
    assert(want.take(j as int) =~= want);
    r
}

/// The variables that a hook sees.
pub open spec fn hook_env(
    from: DesktopEnvironment,
    to: DesktopEnvironment,
    stash_dir: Seq<char>,
    home: Seq<char>,
) -> Seq<(Seq<char>, Seq<char>)> {
    seq![
        ("REBASE_FROM_DE"@, desktop_name(from)),
        ("REBASE_TO_DE"@, desktop_name(to)),
        ("REBASE_STASH_DIR"@, stash_dir),
        ("REBASE_HOME"@, home),
    ]
}

/// The variables that a hook sees.
pub fn build_hook_env(
    from_de: DesktopEnvironment,
    to_de: DesktopEnvironment,
    stash_dir: &str,
    home: &str,
) -> (r: Vec<(String, String)>)
    ensures
        r.deep_view() == hook_env(from_de, to_de, stash_dir@, home@),
{
    let mut r: Vec<(String, String)> = Vec::new();
    r.push(("REBASE_FROM_DE".to_owned(), from_de.name()));
    r.push(("REBASE_TO_DE".to_owned(), to_de.name()));
    r.push(("REBASE_STASH_DIR".to_owned(), stash_dir.to_owned()));
    r.push(("REBASE_HOME".to_owned(), home.to_owned()));
    assert(r.deep_view() =~= hook_env(from_de, to_de, stash_dir@, home@));
    r
}

/// What came of a hook.
#[derive(Debug, Clone, PartialEq, Eq)]
pub struct HookResult {
    pub path: String,
    pub success: bool,
    pub exit_code: Option<i32>,
}

/// What a [`HookResult`] holds.
#[verifier::ext_equal]
pub struct HookResultView {
    pub path: Seq<char>,
    pub success: bool,
    pub exit_code: Option<i32>,
}

impl DeepView for HookResult {
    type V = HookResultView;

    open spec fn deep_view(&self) -> HookResultView {
        HookResultView { path: self.path@, success: self.success, exit_code: self.exit_code }
    }
}

/// What came of a hook: it succeeded where it exited with zero, and where it
/// was not run.
pub open spec fn hook_outcome(path: Seq<char>, ran: bool, exit_code: Option<i32>) -> HookResultView {
    if ran {
        HookResultView { path, success: exit_code == Some(0i32), exit_code }
    } else {
        HookResultView { path, success: true, exit_code: None }
    }
}

/// What came of a hook that ended with the exit code, or with none where a
/// signal ended it. One that fails stops no other. In a dry run none is run.
pub fn hook_result(path: &str, dry_run: bool, exit_code: Option<i32>) -> (r: HookResult)
    ensures
        r.deep_view() == hook_outcome(path@, !dry_run, exit_code),
{
    if dry_run {
        return HookResult { path: path.to_owned(), success: true, exit_code: None };
    }
    let success: bool = match exit_code {
        Some(c) => c == 0,
        None => false,
    };
    HookResult { path: path.to_owned(), success, exit_code }
}

/// The line that reports a hook.
pub open spec fn hook_line(r: HookResultView) -> Seq<char> {
    "  hook "@ + r.path + " ["@ + (if r.success {
        "ok"@
    } else {
        "FAILED"@
    }) + "]"@
}

/// The lines that report the hooks.
pub open spec fn hook_report(results: Seq<HookResultView>) -> Seq<Seq<char>> {
    if results.len() == 0 {
        seq!["No hooks found."@]
    } else {
        results.map_values(|r: HookResultView| hook_line(r))
    }
}

/// The lines that report the hooks.
pub fn hook_result_lines(results: &[HookResult]) -> (r: Vec<String>)
    ensures
        r.deep_view() == hook_report(results.deep_view()),
{
    let mut r: Vec<String> = Vec::new();
    if results.len() == 0 {
        r.push("No hooks found.".to_owned());
        assert(r.deep_view() =~= seq!["No hooks found."@]);
        return r;
    }
    let ghost all = results.deep_view();
    let ghost want = all.map_values(|r: HookResultView| hook_line(r));
    let mut i: usize = 0;
    while i < results.len()
        invariant
            all == results.deep_view(),
            want == all.map_values(|r: HookResultView| hook_line(r)),
            i <= results@.len(),
            r.deep_view() == want.take(i as int),
        decreases results@.len() - i,
    {
        let ghost before = r.deep_view();
        let mut l: String = "  hook ".to_owned();
        l.append(results[i].path.as_str());
        l.append(" [");
        if results[i].success {
            l.append("ok");
        } else {
            l.append("FAILED");
        }
        l.append("]");
        r.push(l);
        proof {
            assert(all[i as int] == results@[i as int].deep_view());
            assert(r.deep_view() =~= before.push(l@));
            assert(r.deep_view() =~= want.take(i + 1));
        }
        i = i + 1;
    }
    assert(want.take(i as int) =~= want);
    r
}

} // verus!
