//! Laws of desktops and of their users' configuration.

use vstd::prelude::*;

use crate::de_controller::{
    decision_for, hook_steps, left_of, post_steps, pre_steps, taken_by, user_moves,
    user_post_steps, user_pre_steps, users_steps, DesktopMigrationDecisionView,
    DesktopMigrationPlanView, DesktopStepView,
};
use crate::de_detect::{
    binary_desktop, conf_names, differing, first_session, is_shown,
    law_session_is_known_by_its_whole_name, present, session_desktop, session_in, session_in_items,
    shown_desktops, verdict, DesktopDetectionView, DesktopEvidenceView,
};
use crate::de_migrate::{
    desktop_name, entries_for, hook_env, hook_names, hook_outcome, kde_commands, lemma_moves,
    moves_for, paths_of, preferences_in, restore_moves, stash_moves, user_in, users_in,
    DesktopEnvironment, HookEntryView, MoveView, PortableSubsetView, UserHomeView,
};
use crate::ini::{ini_document, Items, Sections};
use crate::laws::remap::lemma_number_is_read;
use crate::text::chars::is_white;
use crate::text::numbers::decimal;
use crate::text::paths::join_path;
use crate::text::pieces::{
    lemma_split_first, lemma_trimmed_is_kept, lines, split, trim, trim_end_char, trim_start_char,
};
use crate::text::search::{begins, finishes, holds, lemma_first_index_unique, lower};

verus! {

/// Whether the text names the desktop: it holds one of its markers, and none of
/// those that come before.
pub open spec fn names_desktop(t: Seq<char>, de: DesktopEnvironment) -> bool {
    let gnome = holds(t, "gnome"@);
    let kde = holds(t, "plasma"@) || holds(t, "kde"@);
    let cosmic = holds(t, "cosmic"@);
    let niri = holds(t, "niri"@);
    match de {
        DesktopEnvironment::Gnome => gnome,
        DesktopEnvironment::Kde => kde && !gnome,
        DesktopEnvironment::Cosmic => cosmic && !gnome && !kde,
        DesktopEnvironment::Niri => niri && !gnome && !kde && !cosmic,
        DesktopEnvironment::Xfce => holds(t, "xfce"@) && !gnome && !kde && !cosmic && !niri,
    }
}

/// A session is of the desktop that its whole name names, in capital or small
/// letters.
pub proof fn law_desktop_of_a_session(name: Seq<char>, de: DesktopEnvironment)
    ensures
        session_desktop(name) == Some(de) <==> names_desktop(lower(name), de),
{
    law_session_is_known_by_its_whole_name(name);
}

/// The binary of a desktop's session, below the root.
pub open spec fn binary_of(de: DesktopEnvironment) -> Seq<char> {
    match de {
        DesktopEnvironment::Gnome => "usr/bin/gnome-shell"@,
        DesktopEnvironment::Kde => "usr/bin/plasmashell"@,
        DesktopEnvironment::Cosmic => "usr/bin/cosmic-comp"@,
        DesktopEnvironment::Niri => "usr/bin/niri"@,
        DesktopEnvironment::Xfce => "usr/bin/xfce4-session"@,
    }
}

/// A binary is of the desktop whose session it is, with slashes before it or
/// none.
pub proof fn law_desktop_of_a_binary(path: Seq<char>, de: DesktopEnvironment)
    ensures
        binary_desktop(path) == Some(de) <==> trim_start_char(path, '/') == binary_of(de),
{
    reveal_strlit("usr/bin/gnome-shell");
    reveal_strlit("usr/bin/plasmashell");
    reveal_strlit("usr/bin/cosmic-comp");
    reveal_strlit("usr/bin/niri");
    reveal_strlit("usr/bin/xfce4-session");
    assert("usr/bin/gnome-shell"@[8] == 'g');
    assert("usr/bin/plasmashell"@[8] == 'p');
    assert("usr/bin/cosmic-comp"@[8] == 'c');
    assert("usr/bin/niri"@[8] == 'n');
    assert("usr/bin/xfce4-session"@[8] == 'x');
}

/// Whether a session file or a binary is of the desktop.
pub open spec fn shows_desktop(e: DesktopEvidenceView, de: DesktopEnvironment) -> bool {
    ||| exists|i: int|
        0 <= i < e.session_files.len() && names_desktop(lower(#[trigger] e.session_files[i]), de)
    ||| exists|i: int|
        0 <= i < e.session_binaries.len() && trim_start_char(#[trigger] e.session_binaries[i], '/')
            == binary_of(de)
}

proof fn lemma_shows(e: DesktopEvidenceView, de: DesktopEnvironment)
    ensures
        is_shown(e, de) <==> shows_desktop(e, de),
{
    let f = e.session_files;
    let b = e.session_binaries;
    assert forall|i: int| 0 <= i < f.len() implies (session_desktop(#[trigger] f[i]) == Some(de)
        <==> names_desktop(lower(f[i]), de)) by {
        law_desktop_of_a_session(f[i], de);
    }
    assert forall|i: int| 0 <= i < b.len() implies (binary_desktop(#[trigger] b[i]) == Some(de)
        <==> trim_start_char(b[i], '/') == binary_of(de)) by {
        law_desktop_of_a_binary(b[i], de);
    }
    if is_shown(e, de) {
        if exists|i: int| 0 <= i < f.len() && session_desktop(#[trigger] f[i]) == Some(de) {
            let i = choose|i: int| 0 <= i < f.len() && session_desktop(#[trigger] f[i]) == Some(de);
            assert(names_desktop(lower(f[i]), de));
        } else {
            let i = choose|i: int| 0 <= i < b.len() && binary_desktop(#[trigger] b[i]) == Some(de);
            assert(trim_start_char(b[i], '/') == binary_of(de));
        }
    }
    if shows_desktop(e, de) {
        if exists|i: int| 0 <= i < f.len() && names_desktop(lower(#[trigger] f[i]), de) {
            let i = choose|i: int| 0 <= i < f.len() && names_desktop(lower(#[trigger] f[i]), de);
            assert(session_desktop(f[i]) == Some(de));
        } else {
            let i = choose|i: int|
                0 <= i < b.len() && trim_start_char(#[trigger] b[i], '/') == binary_of(de);
            assert(binary_desktop(b[i]) == Some(de));
        }
    }
}

/// The desktop alone, where it is there.
spec fn alone(there: bool, de: DesktopEnvironment) -> Seq<DesktopEnvironment> {
    if there {
        seq![de]
    } else {
        seq![]
    }
}

proof fn lemma_one_more(
    s: Seq<DesktopEnvironment>,
    there: bool,
    new: DesktopEnvironment,
    de: DesktopEnvironment,
)
    requires
        s.no_duplicates(),
        !s.contains(new),
    ensures
        (s + alone(there, new)).no_duplicates(),
        (s + alone(there, new)).contains(de) <==> s.contains(de) || there && de == new,
{
    let t = s + alone(there, new);
    if there {
        assert(t[s.len() as int] == new);
    } else {
        assert(t =~= s);
    }
    if s.contains(de) {
        let k = choose|k: int| 0 <= k < s.len() && s[k] == de;
        assert(t[k] == de);
    }
    if t.contains(de) {
        let k = choose|k: int| 0 <= k < t.len() && t[k] == de;
        if k < s.len() {
            assert(s[k] == de);
        }
    }
    assert forall|i: int, j: int| 0 <= i < j < t.len() implies t[i] != t[j] by {
        if j == s.len() {
            assert(s[i] == t[i]);
            assert(s.contains(s[i]));
        }
    }
}

proof fn lemma_shown_list(e: DesktopEvidenceView, de: DesktopEnvironment)
    ensures
        shown_desktops(e).contains(de) <==> shows_desktop(e, de),
        shown_desktops(e).no_duplicates(),
{
    lemma_shows(e, de);
    let g = is_shown(e, DesktopEnvironment::Gnome);
    let k = is_shown(e, DesktopEnvironment::Kde);
    let c = is_shown(e, DesktopEnvironment::Cosmic);
    let n = is_shown(e, DesktopEnvironment::Niri);
    let x = is_shown(e, DesktopEnvironment::Xfce);
    lemma_five(g, k, c, n, x, de);
    assert(shown_desktops(e) =~= alone(g, DesktopEnvironment::Gnome) + alone(
        k,
        DesktopEnvironment::Kde,
    ) + alone(c, DesktopEnvironment::Cosmic) + alone(n, DesktopEnvironment::Niri) + alone(
        x,
        DesktopEnvironment::Xfce,
    ));
}

proof fn lemma_five(g: bool, k: bool, c: bool, n: bool, x: bool, de: DesktopEnvironment)
    ensures
        ({
            let all = alone(g, DesktopEnvironment::Gnome) + alone(k, DesktopEnvironment::Kde)
                + alone(c, DesktopEnvironment::Cosmic) + alone(n, DesktopEnvironment::Niri)
                + alone(x, DesktopEnvironment::Xfce);
            &&& all.no_duplicates()
            &&& all.contains(de) <==> match de {
                DesktopEnvironment::Gnome => g,
                DesktopEnvironment::Kde => k,
                DesktopEnvironment::Cosmic => c,
                DesktopEnvironment::Niri => n,
                DesktopEnvironment::Xfce => x,
            }
        }),
{
    let a = alone(g, DesktopEnvironment::Gnome);
    let b = a + alone(k, DesktopEnvironment::Kde);
    let d = b + alone(c, DesktopEnvironment::Cosmic);
    let f = d + alone(n, DesktopEnvironment::Niri);
    if g {
        assert(a[0] == DesktopEnvironment::Gnome);
    }
    assert(a.contains(DesktopEnvironment::Gnome) <==> g);
    assert forall|y: DesktopEnvironment| #[trigger] a.contains(y) implies g && y
        == DesktopEnvironment::Gnome by {}
    lemma_one_more(a, k, DesktopEnvironment::Kde, de);
    lemma_one_more(a, k, DesktopEnvironment::Kde, DesktopEnvironment::Cosmic);
    lemma_one_more(a, k, DesktopEnvironment::Kde, DesktopEnvironment::Niri);
    lemma_one_more(a, k, DesktopEnvironment::Kde, DesktopEnvironment::Xfce);
    lemma_one_more(b, c, DesktopEnvironment::Cosmic, de);
    lemma_one_more(b, c, DesktopEnvironment::Cosmic, DesktopEnvironment::Niri);
    lemma_one_more(b, c, DesktopEnvironment::Cosmic, DesktopEnvironment::Xfce);
    lemma_one_more(d, n, DesktopEnvironment::Niri, de);
    lemma_one_more(d, n, DesktopEnvironment::Niri, DesktopEnvironment::Xfce);
    lemma_one_more(f, x, DesktopEnvironment::Xfce, de);
}

/// The default session of a display manager decides where it names a desktop.
/// Otherwise a desktop is concluded on where it alone is shown by a session file
/// or a binary; several are all named, each once; and nothing is concluded where
/// nothing is shown.
pub proof fn law_which_desktop_is_detected(e: DesktopEvidenceView, de: DesktopEnvironment)
    ensures
        ({
            let named = e.default_session is Some && exists|x: DesktopEnvironment|
                #[trigger] names_desktop(lower(e.default_session->0), x);
            &&& e.default_session is Some && names_desktop(lower(e.default_session->0), de)
                ==> verdict(e) == DesktopDetectionView::Single(de)
            &&& !named ==> (verdict(e) == DesktopDetectionView::Single(de) <==> shows_desktop(e, de)
                && forall|x: DesktopEnvironment| #[trigger] shows_desktop(e, x) ==> x == de)
            &&& !named ==> (verdict(e) is Unknown <==> forall|x: DesktopEnvironment|
                !#[trigger] shows_desktop(e, x))
            &&& verdict(e) matches DesktopDetectionView::Multiple(all) ==> all.no_duplicates() && (
            all.contains(de) <==> shows_desktop(e, de))
        }),
{
    let s = shown_desktops(e);
    assert forall|x: DesktopEnvironment| s.contains(x) <==> #[trigger] shows_desktop(e, x) by {
        lemma_shown_list(e, x);
    }
    lemma_shown_list(e, de);
    if e.default_session is Some {
        let n = e.default_session->0;
        assert forall|x: DesktopEnvironment|
            session_desktop(n) == Some(x) <==> #[trigger] names_desktop(lower(n), x) by {
            law_desktop_of_a_session(n, x);
        }
        law_desktop_of_a_session(n, de);
        if session_desktop(n) is Some {
            assert(names_desktop(lower(n), session_desktop(n)->0));
        }
    }
    if s.len() == 0 {
        assert(forall|x: DesktopEnvironment| !s.contains(x));
    } else {
        assert(s.contains(s[0]));
        assert(shows_desktop(e, s[0]));
        if s.len() > 1 {
            assert(s.contains(s[1]));
            assert(s[0] != s[1]);
            assert(shows_desktop(e, s[1]));
        } else {
            assert forall|x: DesktopEnvironment| #[trigger] shows_desktop(e, x) implies x == s[0] by {
                assert(s.contains(x));
            }
        }
    }
}

/// Whether the item names a default session.
pub open spec fn is_default_session(key: Seq<char>, value: Seq<char>) -> bool {
    (lower(key) == "session"@ || lower(key) == "user-session"@ || lower(key) == "defaultsession"@)
        && trim(value).len() > 0
}

proof fn lemma_first_item(items: Items, k: int)
    requires
        0 <= k < items.len(),
        is_default_session(items[k].0, items[k].1),
        forall|j: int| 0 <= j < k ==> !is_default_session((#[trigger] items[j]).0, items[j].1),
    ensures
        session_in_items(items) == Some(trim(items[k].1)),
    decreases k,
{
    if k > 0 {
        assert(!is_default_session(items[0].0, items[0].1));
        let d = items.skip(1);
        assert forall|j: int| 0 <= j < k - 1 implies !is_default_session(
            (#[trigger] d[j]).0,
            d[j].1,
        ) by {
            assert(d[j] == items[j + 1]);
        }
        assert(d[k - 1] == items[k]);
        lemma_first_item(d, k - 1);
    }
}

proof fn lemma_no_item(items: Items)
    requires
        forall|j: int|
            0 <= j < items.len() ==> !is_default_session((#[trigger] items[j]).0, items[j].1),
    ensures
        session_in_items(items) is None,
    decreases items.len(),
{
    if items.len() > 0 {
        assert(!is_default_session(items[0].0, items[0].1));
        let d = items.skip(1);
        assert forall|j: int| 0 <= j < d.len() implies !is_default_session(
            (#[trigger] d[j]).0,
            d[j].1,
        ) by {
            assert(d[j] == items[j + 1]);
        }
        lemma_no_item(d);
    }
}

/// Whether no item of the section names a default session.
pub open spec fn names_no_session(items: Items) -> bool {
    forall|j: int|
        0 <= j < items.len() ==> !is_default_session((#[trigger] items[j]).0, items[j].1)
}

/// The default session is the first that an item names, in the order of the
/// document and whatever its section is called; there is none where no item
/// names one.
pub proof fn law_first_default_session(doc: Sections, i: int, k: int)
    ensures
        (forall|j: int| 0 <= j < doc.len() ==> names_no_session((#[trigger] doc[j]).1))
            ==> session_in(doc) is None,
        0 <= i < doc.len() && (forall|j: int| 0 <= j < i ==> names_no_session((#[trigger] doc[j]).1))
            && 0 <= k < doc[i].1.len() && is_default_session(doc[i].1[k].0, doc[i].1[k].1) && (
        forall|j: int|
            0 <= j < k ==> !is_default_session((#[trigger] doc[i].1[j]).0, doc[i].1[j].1))
            ==> session_in(doc) == Some(trim(doc[i].1[k].1)),
    decreases doc.len(),
{
    if doc.len() > 0 {
        let d = doc.skip(1);
        law_first_default_session(d, i - 1, k);
        assert forall|j: int| 0 <= j < d.len() implies #[trigger] d[j] == doc[j + 1] by {}
        if forall|j: int| 0 <= j < doc.len() ==> names_no_session((#[trigger] doc[j]).1) {
            assert(names_no_session(doc[0].1));
            lemma_no_item(doc[0].1);
            assert forall|j: int| 0 <= j < d.len() implies names_no_session((#[trigger] d[j]).1) by {
                assert(d[j] == doc[j + 1]);
            }
        }
        if 0 <= i < doc.len() && (forall|j: int|
            0 <= j < i ==> names_no_session((#[trigger] doc[j]).1)) && 0 <= k < doc[i].1.len()
            && is_default_session(doc[i].1[k].0, doc[i].1[k].1) && (forall|j: int|
            0 <= j < k ==> !is_default_session((#[trigger] doc[i].1[j]).0, doc[i].1[j].1)) {
            if i == 0 {
                lemma_first_item(doc[0].1, k);
            } else {
                assert(names_no_session(doc[0].1));
                lemma_no_item(doc[0].1);
                assert(d[i - 1] == doc[i]);
                assert forall|j: int| 0 <= j < i - 1 implies names_no_session(
                    (#[trigger] d[j]).1,
                ) by {
                    assert(d[j] == doc[j + 1]);
                }
            }
        }
    }
}

/// The configurations are read in order up to the first that names a default
/// session, and one that is none on the way is an error.
pub proof fn law_configurations_are_read_in_order(
    a: Seq<(Seq<char>, Seq<char>)>,
    c: (Seq<char>, Seq<char>),
    b: Seq<(Seq<char>, Seq<char>)>,
)
    requires
        forall|j: int|
            0 <= j < a.len() ==> (ini_document((#[trigger] a[j]).1) matches Ok(doc) && session_in(
                doc,
            ) is None),
    ensures
        ({
            let all = first_session(a + seq![c] + b);
            &&& ini_document(c.1) is Err ==> all is Err
            &&& ini_document(c.1) matches Ok(doc) ==> (session_in(doc) is Some ==> all == Ok::<
                Option<Seq<char>>,
                Seq<char>,
            >(session_in(doc)))
            &&& first_session(a) == Ok::<Option<Seq<char>>, Seq<char>>(None)
        }),
    decreases a.len(),
{
    let all = a + seq![c] + b;
    if a.len() == 0 {
        assert(all[0] == c);
    } else {
        assert(all[0] == a[0]);
        assert(all.skip(1) =~= a.skip(1) + seq![c] + b);
        let d = a.skip(1);
        assert forall|j: int| 0 <= j < d.len() implies (ini_document(
            (#[trigger] d[j]).1,
        ) matches Ok(doc) && session_in(doc) is None) by {
            assert(d[j] == a[j + 1]);
        }
        law_configurations_are_read_in_order(d, c, b);
    }
}

/// What is looked for is what exists of it, in its order; and of the names in a
/// directory those count that end in `.conf` and have something before it.
pub proof fn law_files_that_are_read(paths: Seq<Seq<char>>, existing: Seq<Seq<char>>)
    ensures
        present(paths, existing) == paths.filter(|p: Seq<char>| existing.contains(p)),
        conf_names(paths) == paths.filter(
            |n: Seq<char>| finishes(n, ".conf"@) && n.len() > 5,
        ),
    decreases paths.len(),
{
    reveal(Seq::filter);
    if paths.len() > 0 {
        law_files_that_are_read(paths.drop_last(), existing);
    }
}

/// Two desktops differ where each is alone and they are not the same.
pub proof fn law_when_desktops_differ(
    a: DesktopDetectionView,
    b: DesktopDetectionView,
    x: DesktopEnvironment,
    y: DesktopEnvironment,
)
    ensures
        differing(a, b) == Some((x, y)) <==> a == DesktopDetectionView::Single(x) && b
            == DesktopDetectionView::Single(y) && x != y,
{
}

/// Where the configuration of each desktop is.
pub proof fn law_paths_of_the_desktops()
    ensures
        paths_of(DesktopEnvironment::Gnome).to_set() == set![
            ".config/dconf/user"@,
            ".config/gnome-shell"@,
            ".local/share/gnome-shell"@,
        ],
        paths_of(DesktopEnvironment::Kde).to_set() == set![
            ".config/kdeglobals"@,
            ".config/kwinrc"@,
            ".config/plasma-org.kde.plasma.desktop-appletsrc"@,
            ".config/plasmarc"@,
            ".local/share/plasma"@,
        ],
        paths_of(DesktopEnvironment::Cosmic).to_set() == set![
            ".config/cosmic"@,
            ".local/state/cosmic"@,
        ],
        paths_of(DesktopEnvironment::Niri).to_set() == set![".config/niri"@],
        paths_of(DesktopEnvironment::Xfce).to_set() == set![
            ".config/xfce4"@,
            ".config/Thunar"@,
            ".local/share/xfce4"@,
        ],
{
    let g = paths_of(DesktopEnvironment::Gnome);
    let k = paths_of(DesktopEnvironment::Kde);
    let c = paths_of(DesktopEnvironment::Cosmic);
    let n = paths_of(DesktopEnvironment::Niri);
    let x = paths_of(DesktopEnvironment::Xfce);
    assert(g[0] == g[0] && g[1] == g[1] && g[2] == g[2]);
    assert(k[0] == k[0] && k[1] == k[1] && k[2] == k[2] && k[3] == k[3] && k[4] == k[4]);
    assert(c[0] == c[0] && c[1] == c[1]);
    assert(n[0] == n[0]);
    assert(x[0] == x[0] && x[1] == x[1] && x[2] == x[2]);
    assert(g.to_set() =~= set![
        ".config/dconf/user"@,
        ".config/gnome-shell"@,
        ".local/share/gnome-shell"@,
    ]);
    assert(k.to_set() =~= set![
        ".config/kdeglobals"@,
        ".config/kwinrc"@,
        ".config/plasma-org.kde.plasma.desktop-appletsrc"@,
        ".config/plasmarc"@,
        ".local/share/plasma"@,
    ]);
    assert(c.to_set() =~= set![".config/cosmic"@, ".local/state/cosmic"@]);
    assert(n.to_set() =~= set![".config/niri"@]);
    assert(x.to_set() =~= set![".config/xfce4"@, ".config/Thunar"@, ".local/share/xfce4"@]);
}

/// A stash moves each of the desktop's paths that is there, from the home to the
/// desktop's own place in the stash, and a restore moves it back from there; what
/// is not there is not moved, and nothing else is.
pub proof fn law_each_path_that_is_there_is_moved(
    de: DesktopEnvironment,
    home: Seq<char>,
    stash_root: Seq<char>,
    existing: Seq<Seq<char>>,
    m: MoveView,
)
    requires
        m.relative_path.len() > 0,
        paths_of(de).contains(m.relative_path),
    ensures
        ({
            let p = m.relative_path;
            let away = join_path(join_path(stash_root, desktop_name(de)), p);
            &&& existing.contains(join_path(home, p)) ==> stash_moves(
                de,
                home,
                stash_root,
                existing,
            ).contains(MoveView { relative_path: p, from: join_path(home, p), to: away })
            &&& existing.contains(away) ==> restore_moves(de, home, stash_root, existing).contains(
                MoveView { relative_path: p, from: away, to: join_path(home, p) },
            )
            &&& stash_moves(de, home, stash_root, existing).contains(m) ==> existing.contains(
                join_path(home, p),
            ) && m.from == join_path(home, p) && m.to == away
            &&& restore_moves(de, home, stash_root, existing).contains(m) ==> existing.contains(
                away,
            ) && m.from == away && m.to == join_path(home, p)
        }),
{
    let root = join_path(stash_root, desktop_name(de));
    let p = m.relative_path;
    let i = choose|i: int| 0 <= i < paths_of(de).len() && paths_of(de)[i] == p;
    lemma_moves_hold(paths_of(de), home, root, existing, i, m);
    lemma_moves_hold(paths_of(de), root, home, existing, i, m);
}

proof fn lemma_moves_hold(
    paths: Seq<Seq<char>>,
    from: Seq<char>,
    to: Seq<char>,
    existing: Seq<Seq<char>>,
    i: int,
    m: MoveView,
)
    requires
        0 <= i < paths.len(),
    ensures
        ({
            let moves = moves_for(entries_for(paths, from, existing), from, to);
            &&& existing.contains(join_path(from, paths[i])) ==> moves.contains(
                MoveView {
                    relative_path: paths[i],
                    from: join_path(from, paths[i]),
                    to: join_path(to, paths[i]),
                },
            )
            &&& moves.contains(m) ==> existing.contains(join_path(from, m.relative_path)) && m.from
                == join_path(from, m.relative_path) && m.to == join_path(to, m.relative_path)
        }),
    decreases paths.len(),
{
    let d = paths.drop_last();
    let all = entries_for(paths, from, existing);
    let rest = entries_for(d, from, existing);
    assert(all.drop_last() =~= rest);
    assert(all.last().relative_path == paths.last());
    let moves = moves_for(all, from, to);
    let done = moves_for(rest, from, to);
    let mine = MoveView {
        relative_path: paths[i],
        from: join_path(from, paths[i]),
        to: join_path(to, paths[i]),
    };
    if i < d.len() {
        lemma_moves_hold(d, from, to, existing, i, m);
        assert(d[i] == paths[i]);
        if existing.contains(join_path(from, paths[i])) {
            let k = choose|k: int| 0 <= k < done.len() && done[k] == mine;
            assert(moves[k] == mine);
        }
    } else if existing.contains(join_path(from, paths[i])) {
        assert(moves[moves.len() - 1] == mine);
    }
    if moves.contains(m) {
        let k = choose|k: int| 0 <= k < moves.len() && moves[k] == m;
        if k < done.len() {
            assert(done[k] == m);
            if d.len() > 0 {
                lemma_moves_hold(d, from, to, existing, 0, m);
            }
        }
    }
}

/// Whether the shell lets somebody log in.
pub open spec fn lets_log_in(shell: Seq<char>) -> bool {
    shell != "/sbin/nologin"@ && shell != "/usr/sbin/nologin"@ && shell != "/bin/false"@ && shell
        != "/usr/bin/false"@
}

/// Whether the text is empty or has no white space around it.
pub open spec fn is_trimmed(s: Seq<char>) -> bool {
    s.len() == 0 || !is_white(s[0]) && !is_white(s.last())
}

/// An account is a human one exactly where its uid is one of theirs and not that
/// of nobody, somebody can log in with its shell, and its home is a path of its
/// own; it is read from its line with its name, uid and home.
pub proof fn law_human_accounts(
    name: Seq<char>,
    password: Seq<char>,
    uid: u32,
    group: Seq<char>,
    comment: Seq<char>,
    home: Seq<char>,
    shell: Seq<char>,
)
    requires
        name.len() > 0,
        name[0] != '#',
        is_trimmed(name),
        is_trimmed(home),
        is_trimmed(shell),
        !name.contains(':'),
        !password.contains(':'),
        !group.contains(':'),
        !comment.contains(':'),
        !home.contains(':'),
        !shell.contains(':'),
    ensures
        ({
            let c = seq![':'];
            let line = name + c + (password + c + (decimal(uid as nat) + c + (group + c + (comment
                + c + (home + c + shell)))));
            user_in(line) == (if uid >= 1000 && uid != 65534 && lets_log_in(shell) && home != "/"@
                && begins(home, "/"@) {
                Some(UserHomeView { name, uid, home })
            } else {
                None
            })
        }),
{
    reveal_strlit("#");
    let c = seq![':'];
    let d = decimal(uid as nat);
    let e5 = home + c + shell;
    let e4 = comment + c + e5;
    let e3 = group + c + e4;
    let e2 = d + c + e3;
    let e1 = password + c + e2;
    let line = name + c + e1;
    lemma_number_is_read(uid);
    lemma_split_first(name, e1, ':');
    lemma_split_first(password, e2, ':');
    lemma_split_first(d, e3, ':');
    lemma_split_first(group, e4, ':');
    lemma_split_first(comment, e5, ':');
    lemma_split_first(home, shell, ':');
    lemma_split_first(shell, Seq::empty(), ':');
    let f = split(line, ':');
    assert(f =~= seq![name, password, d, group, comment, home, shell]);
    lemma_trimmed_is_kept(name);
    lemma_trimmed_is_kept(home);
    lemma_trimmed_is_kept(shell);
    lemma_trimmed_is_kept(d);
    assert(begins(name, "#"@) <==> name[0] == '#') by {
        if begins(name, "#"@) {
            assert(name.take(1)[0] == "#"@[0]);
        }
    }
}

/// The human accounts of two runs of lines are those of the one and of the other.
pub proof fn law_human_accounts_are_read_line_by_line(a: Seq<Seq<char>>, b: Seq<Seq<char>>)
    ensures
        users_in(a + b) == users_in(a) + users_in(b),
    decreases b.len(),
{
    if b.len() == 0 {
        assert(a + b =~= a);
        assert(users_in(a) + users_in(b) =~= users_in(a));
    } else {
        law_human_accounts_are_read_line_by_line(a, b.drop_last());
        assert((a + b).drop_last() =~= a + b.drop_last());
        assert((a + b).last() == b.last());
        assert(users_in(a + b) =~= users_in(a) + users_in(b));
    }
}

/// The preferences with one more setting.
pub open spec fn set_preference(
    s: PortableSubsetView,
    section: Seq<char>,
    key: Seq<char>,
    value: Seq<char>,
    after: PortableSubsetView,
) -> bool {
    let background = section == "org/gnome/desktop/background"@ && key == "picture-uri"@;
    let scheme = section == "org/gnome/desktop/interface"@ && key == "color-scheme"@;
    let accent = section == "org/gnome/desktop/interface"@ && key == "accent-color"@;
    let region = section == "org/gnome/system/locale"@ && key == "region"@ || section
        == "org/gnome/desktop/interface"@ && key == "locale"@;
    let sources = section == "org/gnome/desktop/input-sources"@ && key == "sources"@;
    &&& after.wallpaper_path == if background {
        Some(value)
    } else {
        s.wallpaper_path
    }
    &&& after.dark_mode == if scheme {
        Some(holds(value, "dark"@))
    } else {
        s.dark_mode
    }
    &&& after.accent_color == if accent {
        Some(value)
    } else {
        s.accent_color
    }
    &&& after.locale == if region {
        Some(value)
    } else {
        s.locale
    }
    &&& after.keyboard_layout == if sources {
        Some(value)
    } else {
        s.keyboard_layout
    }
}

/// A setting is read under its section and sets its own preference, and no
/// other: the value is what stands behind the first equals sign, without the
/// quotes around it. A later setting wins.
pub proof fn law_preferences_are_read(
    ls: Seq<Seq<char>>,
    section: Seq<char>,
    key: Seq<char>,
    value: Seq<char>,
)
    requires
        key.len() > 0,
        is_trimmed(key),
        !key.contains('='),
        key[0] != '[',
        value.len() > 0,
        value[0] != '\'',
        value.last() != '\'',
    ensures
        ({
            let heading = seq!['['] + section + seq![']'];
            let line = key + seq!['=', '\''] + value + seq!['\''];
            set_preference(
                preferences_in(ls).1,
                section,
                key,
                value,
                preferences_in(ls.push(heading).push(line)).1,
            )
        }),
{
    reveal_strlit("[");
    reveal_strlit("]");
    reveal_strlit("org/gnome/desktop/background");
    reveal_strlit("org/gnome/desktop/interface");
    reveal_strlit("org/gnome/system/locale");
    reveal_strlit("org/gnome/desktop/input-sources");
    reveal_strlit("picture-uri");
    reveal_strlit("color-scheme");
    reveal_strlit("accent-color");
    reveal_strlit("region");
    reveal_strlit("locale");
    reveal_strlit("sources");
    let heading = seq!['['] + section + seq![']'];
    let line = key + seq!['=', '\''] + value + seq!['\''];
    let one = ls.push(heading);
    let two = one.push(line);
    assert(one.drop_last() =~= ls);
    assert(two.drop_last() =~= one);
    lemma_trimmed_is_kept(heading);
    assert(heading.take(1) =~= "["@);
    assert(heading.skip(heading.len() - 1) =~= "]"@);
    assert(heading.subrange(1, heading.len() - 1) =~= section);
    assert(preferences_in(one) == (section, preferences_in(ls).1));
    assert(line[0] == key[0]);
    assert(line.last() == '\'');
    lemma_trimmed_is_kept(line);
    assert(!begins(line, "["@)) by {
        if begins(line, "["@) {
            assert(line.take(1)[0] == "["@[0]);
        }
    }
    let n = key.len() as int;
    assert(line[n] == '=');
    assert forall|i: int| 0 <= i < n implies line[i] != '=' by {
        assert(line[i] == key[i]);
    }
    lemma_first_index_unique(line, '=', n);
    assert(line.take(n) =~= key);
    let quoted = seq!['\''] + value + seq!['\''];
    assert(line.skip(n + 1) =~= quoted);
    lemma_trimmed_is_kept(key);
    lemma_trimmed_is_kept(quoted);
    lemma_unquoted(value);
    assert(preferences_in(two).1 == crate::de_migrate::with_setting(
        preferences_in(ls).1,
        section,
        key,
        value,
    ));
    assert("color-scheme"@[1] != "accent-color"@[1]);
    assert("color-scheme"@.len() != "locale"@.len());
    assert("accent-color"@.len() != "locale"@.len());
    assert("org/gnome/desktop/background"@[18] != "org/gnome/desktop/interface"@[18]);
    assert("org/gnome/desktop/background"@[10] != "org/gnome/system/locale"@[10]);
    assert("org/gnome/desktop/interface"@[10] != "org/gnome/system/locale"@[10]);
    assert("org/gnome/desktop/input-sources"@.len() != "org/gnome/desktop/interface"@.len());
    assert("org/gnome/desktop/input-sources"@.len() != "org/gnome/desktop/background"@.len());
    assert("org/gnome/desktop/input-sources"@.len() != "org/gnome/system/locale"@.len());
}

proof fn lemma_unquoted(value: Seq<char>)
    requires
        value.len() > 0,
        value[0] != '\'',
        value.last() != '\'',
    ensures
        crate::de_migrate::unquoted(seq!['\''] + value + seq!['\'']) == value,
{
    let q = seq!['\''] + value + seq!['\''];
    let a = value + seq!['\''];
    assert(q.skip(1) =~= a);
    assert(a[0] == value[0]);
    reveal_with_fuel(trim_start_char, 2);
    assert(trim_start_char(q, '\'') == a);
    assert(a.drop_last() =~= value);
    reveal_with_fuel(trim_end_char, 2);
    assert(trim_end_char(a, '\'') == value);
}

/// On KDE there is a command for the wallpaper, the colours and the keyboard, of
/// those that are set, each with its value last; and no other.
pub proof fn law_commands_for_kde(s: PortableSubsetView)
    ensures
        ({
            let cs = kde_commands(s);
            let w: int = if s.wallpaper_path is Some {
                1
            } else {
                0
            };
            let d: int = if s.dark_mode is Some {
                1
            } else {
                0
            };
            let k: int = if s.keyboard_layout is Some {
                1
            } else {
                0
            };
            &&& cs.len() == w + d + k
            &&& s.wallpaper_path matches Some(v) ==> cs[0].last() == v && cs[0].contains("Image"@)
            &&& s.dark_mode matches Some(dark) ==> cs[w].contains("ColorScheme"@) && cs[w].last()
                == if dark {
                "BreezeDark"@
            } else {
                "BreezeLight"@
            }
            &&& s.keyboard_layout matches Some(v) ==> cs[w + d].last() == v && cs[w + d].contains(
                "LayoutList"@,
            )
        }),
{
    let cs = kde_commands(s);
    let w: int = if s.wallpaper_path is Some {
        1
    } else {
        0
    };
    let d: int = if s.dark_mode is Some {
        1
    } else {
        0
    };
    if s.wallpaper_path is Some {
        assert(cs[0][6] == "Image"@);
    }
    if s.dark_mode is Some {
        assert(cs[w][6] == "ColorScheme"@);
    }
    if s.keyboard_layout is Some {
        assert(cs[w + d][6] == "LayoutList"@);
    }
}

/// The hooks are the files that somebody may execute.
pub proof fn law_which_files_are_hooks(entries: Seq<HookEntryView>)
    ensures
        hook_names(entries) == entries.filter(
            |e: HookEntryView| e.is_file && e.mode & 0o111 != 0,
        ).map_values(|e: HookEntryView| e.name),
    decreases entries.len(),
{
    reveal(Seq::filter);
    let p = |e: HookEntryView| e.is_file && e.mode & 0o111 != 0;
    let f = |e: HookEntryView| e.name;
    if entries.len() > 0 {
        let d = entries.drop_last();
        law_which_files_are_hooks(d);
        assert(d.filter(p).push(entries.last()).map_values(f) =~= d.filter(p).map_values(f).push(
            f(entries.last()),
        ));
    } else {
        assert(hook_names(entries) =~= entries.filter(p).map_values(f));
    }
}

/// A hook sees both desktops, the stash and the home; it succeeded where it exited
/// with zero, or was not run.
pub proof fn law_what_hooks_see(
    from: DesktopEnvironment,
    to: DesktopEnvironment,
    stash: Seq<char>,
    home: Seq<char>,
    path: Seq<char>,
    ran: bool,
    code: Option<i32>,
)
    ensures
        hook_env(from, to, stash, home).contains(("REBASE_FROM_DE"@, desktop_name(from))),
        hook_env(from, to, stash, home).contains(("REBASE_TO_DE"@, desktop_name(to))),
        hook_env(from, to, stash, home).contains(("REBASE_STASH_DIR"@, stash)),
        hook_env(from, to, stash, home).contains(("REBASE_HOME"@, home)),
        hook_outcome(path, ran, code).success <==> !ran || code == Some(0i32),
        ran ==> hook_outcome(path, ran, code).exit_code == code,
        hook_outcome(path, ran, code).path == path,
{
    let e = hook_env(from, to, stash, home);
    assert(e[0] == ("REBASE_FROM_DE"@, desktop_name(from)));
    assert(e[1] == ("REBASE_TO_DE"@, desktop_name(to)));
    assert(e[2] == ("REBASE_STASH_DIR"@, stash));
    assert(e[3] == ("REBASE_HOME"@, home));
}

/// Configuration is moved exactly where each side has one desktop, they are not
/// the same, and there is a human account; and then for all of them.
pub proof fn law_when_configuration_is_moved(
    host: DesktopDetectionView,
    target: DesktopDetectionView,
    passwd: Seq<char>,
)
    ensures
        ({
            let d = decision_for(host, target, passwd);
            let users = users_in(lines(passwd));
            let apart = host is Single && target is Single && host->Single_0 != target->Single_0;
            &&& d is Planned <==> apart && users.len() > 0
            &&& d is NoUsers <==> apart && users.len() == 0
            &&& d is NotCrossDesktop <==> !apart
            &&& apart && users.len() > 0 ==> d == DesktopMigrationDecisionView::Planned(
                DesktopMigrationPlanView { from: host->Single_0, to: target->Single_0, users },
            )
        }),
{
}

proof fn lemma_taken(
    plan: DesktopMigrationPlanView,
    users: Seq<UserHomeView>,
    existing: Seq<Seq<Seq<char>>>,
    before: bool,
    p: Seq<char>,
)
    requires
        existing.len() >= users.len(),
        forall|j: int| 0 <= j < users.len() ==> !(#[trigger] existing[j]).contains(p),
    ensures
        !taken_by(plan, users, existing, false, before).contains(p),
    decreases users.len(),
{
    if users.len() > 0 {
        let d = users.drop_last();
        let n = users.len() - 1;
        lemma_taken(plan, d, existing, before, p);
        let taken = taken_by(plan, d, existing, false, before);
        let left = left_of(existing[n], taken);
        let moves = user_moves(plan, users.last(), left, before);
        let more = crate::de_controller::sources(moves);
        let all = taken_by(plan, users, existing, false, before);
        if all.contains(p) {
            let k = choose|k: int| 0 <= k < all.len() && all[k] == p;
            if k < taken.len() {
                assert(taken[k] == p);
            } else {
                let m = k - taken.len();
                assert(more[m] == p);
                let home = users.last().home;
                let dir = join_path(home, ".local/share/de-migrate"@);
                if before {
                    lemma_moves(
                        paths_of(plan.from),
                        home,
                        join_path(dir, desktop_name(plan.from)),
                        left,
                        m,
                    );
                } else {
                    lemma_moves(
                        paths_of(plan.to),
                        join_path(dir, desktop_name(plan.to)),
                        home,
                        left,
                        m,
                    );
                }
                assert(left.contains(p));
                lemma_left(existing[n], taken, p);
            }
        }
    }
}

proof fn lemma_left(existing: Seq<Seq<char>>, taken: Seq<Seq<char>>, p: Seq<char>)
    ensures
        left_of(existing, taken).contains(p) <==> existing.contains(p) && !taken.contains(p),
    decreases existing.len(),
{
    if existing.len() > 0 {
        let d = existing.drop_last();
        lemma_left(d, taken, p);
        let rest = left_of(d, taken);
        let all = left_of(existing, taken);
        let n = existing.len() - 1;
        assert(existing[n] == existing.last());
        if rest.contains(p) {
            let k = choose|k: int| 0 <= k < rest.len() && rest[k] == p;
            assert(all[k] == p);
        }
        if d.contains(p) {
            let k = choose|k: int| 0 <= k < d.len() && d[k] == p;
            assert(existing[k] == p);
        }
        if existing.contains(p) && existing.last() != p {
            let k = choose|k: int| 0 <= k < existing.len() && existing[k] == p;
            assert(d[k] == p);
        }
        if existing.last() == p && !taken.contains(p) {
            assert(all[all.len() - 1] == p);
        }
        if all.contains(p) && !(existing.last() == p) {
            let k = choose|k: int| 0 <= k < all.len() && all[k] == p;
            assert(rest[k] == p);
        }
    }
}

/// Whether the steps move the one path to the other.
pub open spec fn transfers(steps: Seq<DesktopStepView>, from: Seq<char>, to: Seq<char>) -> bool {
    exists|k: int| 0 <= k < steps.len() && is_transfer(#[trigger] steps[k], from, to)
}

/// Whether the step moves the one path to the other.
pub open spec fn is_transfer(s: DesktopStepView, from: Seq<char>, to: Seq<char>) -> bool {
    s matches DesktopStepView::Transfer { from: a, to: b, .. } && a == from && b == to
}

proof fn lemma_user_transfers(
    plan: DesktopMigrationPlanView,
    user: UserHomeView,
    existing: Seq<Seq<char>>,
    has_hooks: bool,
    before: bool,
    m: MoveView,
)
    requires
        user_moves(plan, user, existing, before).contains(m),
    ensures
        before ==> transfers(
            user_pre_steps(plan, user, existing, has_hooks, false),
            m.from,
            m.to,
        ),
        !before ==> transfers(
            user_post_steps(plan, user, existing, has_hooks, false),
            m.from,
            m.to,
        ),
{
    let moves = user_moves(plan, user, existing, before);
    let k = choose|k: int| 0 <= k < moves.len() && moves[k] == m;
    if before {
        let s = user_pre_steps(plan, user, existing, has_hooks, false);
        assert(is_transfer(s[k], m.from, m.to));
    } else {
        let s = user_post_steps(plan, user, existing, has_hooks, false);
        assert(is_transfer(s[k], m.from, m.to));
    }
}

proof fn lemma_users_transfer(
    plan: DesktopMigrationPlanView,
    users: Seq<UserHomeView>,
    existing: Seq<Seq<Seq<char>>>,
    has_hooks: bool,
    before: bool,
    i: int,
    m: MoveView,
)
    requires
        0 <= i < users.len(),
        existing.len() >= users.len(),
        user_moves(
            plan,
            users[i],
            left_of(existing[i], taken_by(plan, users.take(i), existing, false, before)),
            before,
        ).contains(m),
    ensures
        transfers(
            users_steps(plan, users, existing, has_hooks, false, before),
            m.from,
            m.to,
        ),
    decreases users.len(),
{
    let d = users.drop_last();
    let n = users.len() - 1;
    let done = users_steps(plan, d, existing, has_hooks, false, before);
    let all = users_steps(plan, users, existing, has_hooks, false, before);
    if i < n {
        assert(d[i] == users[i]);
        assert(d.take(i) =~= users.take(i));
        lemma_users_transfer(plan, d, existing, has_hooks, before, i, m);
        let k = choose|k: int| 0 <= k < done.len() && is_transfer(#[trigger] done[k], m.from, m.to);
        assert(all[k] == done[k]);
    } else {
        assert(users.take(i) =~= d);
        let left = left_of(existing[n], taken_by(plan, d, existing, false, before));
        lemma_user_transfers(plan, users.last(), left, has_hooks, before, m);
        let own = if before {
            user_pre_steps(plan, users.last(), left, has_hooks, false)
        } else {
            user_post_steps(plan, users.last(), left, has_hooks, false)
        };
        let k = choose|k: int| 0 <= k < own.len() && is_transfer(#[trigger] own[k], m.from, m.to);
        assert(all[done.len() + k] == own[k]);
    }
}

/// Before the switch every path of the leaving desktop's configuration that is in
/// a user's home is moved to that user's stash, for every user, unless an account
/// that shares the home was there before.
pub proof fn law_every_users_configuration_is_stashed(
    plan: DesktopMigrationPlanView,
    existing: Seq<Seq<Seq<char>>>,
    has_hooks: bool,
    i: int,
    p: Seq<char>,
)
    requires
        existing.len() == plan.users.len(),
        0 <= i < plan.users.len(),
        paths_of(plan.from).contains(p),
        p.len() > 0,
        existing[i].contains(join_path(plan.users[i].home, p)),
        forall|j: int|
            0 <= j < i ==> !(#[trigger] existing[j]).contains(join_path(plan.users[i].home, p)),
    ensures
        transfers(
            pre_steps(plan, existing, has_hooks, false),
            join_path(plan.users[i].home, p),
            join_path(
                join_path(
                    join_path(plan.users[i].home, ".local/share/de-migrate"@),
                    desktop_name(plan.from),
                ),
                p,
            ),
        ),
{
    let home = plan.users[i].home;
    let dir = join_path(home, ".local/share/de-migrate"@);
    let path = join_path(home, p);
    let before = plan.users.take(i);
    assert forall|j: int| 0 <= j < before.len() implies !(#[trigger] existing[j]).contains(path) by {}
    lemma_taken(plan, before, existing, true, path);
    let left = left_of(existing[i], taken_by(plan, before, existing, false, true));
    lemma_left(existing[i], taken_by(plan, before, existing, false, true), path);
    let m = MoveView {
        relative_path: p,
        from: path,
        to: join_path(join_path(dir, desktop_name(plan.from)), p),
    };
    law_each_path_that_is_there_is_moved(plan.from, home, dir, left, m);
    lemma_users_transfer(plan, plan.users, existing, has_hooks, true, i, m);
    let steps = users_steps(plan, plan.users, existing, has_hooks, false, true);
    let all = pre_steps(plan, existing, has_hooks, false);
    let k = choose|k: int| 0 <= k < steps.len() && is_transfer(#[trigger] steps[k], m.from, m.to);
    assert(all[k + 1] == steps[k]);
}

/// After the switch every path of the arriving desktop's configuration that is in
/// a user's stash is moved back to that user's home, unless an account that
/// shares the stash was there before.
pub proof fn law_every_users_stash_is_restored(
    plan: DesktopMigrationPlanView,
    existing: Seq<Seq<Seq<char>>>,
    has_hooks: bool,
    i: int,
    p: Seq<char>,
)
    requires
        existing.len() == plan.users.len(),
        0 <= i < plan.users.len(),
        paths_of(plan.to).contains(p),
        p.len() > 0,
        existing[i].contains(
            join_path(
                join_path(
                    join_path(plan.users[i].home, ".local/share/de-migrate"@),
                    desktop_name(plan.to),
                ),
                p,
            ),
        ),
        forall|j: int|
            0 <= j < i ==> !(#[trigger] existing[j]).contains(
                join_path(
                    join_path(
                        join_path(plan.users[i].home, ".local/share/de-migrate"@),
                        desktop_name(plan.to),
                    ),
                    p,
                ),
            ),
    ensures
        transfers(
            post_steps(plan, existing, has_hooks, false),
            join_path(
                join_path(
                    join_path(plan.users[i].home, ".local/share/de-migrate"@),
                    desktop_name(plan.to),
                ),
                p,
            ),
            join_path(plan.users[i].home, p),
        ),
{
    let home = plan.users[i].home;
    let dir = join_path(home, ".local/share/de-migrate"@);
    let path = join_path(join_path(dir, desktop_name(plan.to)), p);
    let before = plan.users.take(i);
    assert forall|j: int| 0 <= j < before.len() implies !(#[trigger] existing[j]).contains(path) by {}
    lemma_taken(plan, before, existing, false, path);
    let left = left_of(existing[i], taken_by(plan, before, existing, false, false));
    lemma_left(existing[i], taken_by(plan, before, existing, false, false), path);
    let m = MoveView { relative_path: p, from: path, to: join_path(home, p) };
    law_each_path_that_is_there_is_moved(plan.to, home, dir, left, m);
    lemma_users_transfer(plan, plan.users, existing, has_hooks, false, i, m);
    let steps = users_steps(plan, plan.users, existing, has_hooks, false, false);
    let all = post_steps(plan, existing, has_hooks, false);
    let k = choose|k: int| 0 <= k < steps.len() && is_transfer(#[trigger] steps[k], m.from, m.to);
    assert(all[k + 1] == steps[k]);
}

/// Whether the step runs the hooks for the user.
pub open spec fn runs_hooks(
    s: DesktopStepView,
    plan: DesktopMigrationPlanView,
    user: UserHomeView,
    before: bool,
    dry_run: bool,
) -> bool {
    s is Hooks && s->Hooks_before == before && s->Hooks_dry_run == dry_run
        && s->Hooks_env.contains(("REBASE_HOME"@, user.home)) && s->Hooks_env.contains(
        ("REBASE_FROM_DE"@, desktop_name(plan.from)),
    ) && s->Hooks_env.contains(("REBASE_TO_DE"@, desktop_name(plan.to)))
}

/// The hooks run once for every user, where there are any.
pub proof fn law_hooks_run_for_every_user(
    plan: DesktopMigrationPlanView,
    users: Seq<UserHomeView>,
    existing: Seq<Seq<Seq<char>>>,
    dry_run: bool,
    before: bool,
    i: int,
)
    requires
        0 <= i < users.len(),
    ensures
        exists|k: int|
            0 <= k < users_steps(plan, users, existing, true, dry_run, before).len() && runs_hooks(
                #[trigger] users_steps(plan, users, existing, true, dry_run, before)[k],
                plan,
                users[i],
                before,
                dry_run,
            ),
    decreases users.len(),
{
    let d = users.drop_last();
    let n = users.len() - 1;
    let done = users_steps(plan, d, existing, true, dry_run, before);
    let all = users_steps(plan, users, existing, true, dry_run, before);
    if i < n {
        law_hooks_run_for_every_user(plan, d, existing, dry_run, before, i);
        let k = choose|k: int|
            0 <= k < done.len() && runs_hooks(#[trigger] done[k], plan, d[i], before, dry_run);
        assert(d[i] == users[i]);
        assert(all[k] == done[k]);
    } else {
        let user = users.last();
        let hooks = hook_steps(plan, user, true, dry_run, before);
        law_what_hooks_see(
            plan.from,
            plan.to,
            join_path(user.home, ".local/share/de-migrate"@),
            user.home,
            Seq::empty(),
            true,
            None,
        );
        assert(all.last() == hooks[0]);
        assert(runs_hooks(all[all.len() - 1], plan, users[i], before, dry_run));
    }
}

} // verus!
