//! Which desktop environment an image ships, or a host runs.
//!
//! Both are answered from the same evidence: the session files, the sessions'
//! own binaries, and the session that a display manager starts by default.

use vstd::prelude::*;

use crate::de_migrate::{desktop_name, DesktopEnvironment};
use crate::ini::{ini_all, ini_document, parse_ini, Items, Sections};
use crate::text::chars::is_white;
use crate::text::compose::{join, joined, owned_all};
use crate::text::order::{list_contains, sort_texts, sorted_texts};
use crate::text::paths::{conf_name, is_conf_name, join_path, path_join};
use crate::text::pieces::{
    trim, trim_end, trim_end_text, trim_start, trim_start_char, trimmed, trimmed_end_text,
    trimmed_start_char,
};
use crate::text::search::{
    contains, finishes, holds, lower, occurs_at, same, same_ignoring_case, to_lower,
};

verus! {

/// What points at a desktop on a filesystem.
#[derive(Debug, Clone, PartialEq, Eq)]
pub struct DesktopEvidence {
    /// The names of the session files.
    pub session_files: Vec<String>,
    /// Those of the known session binaries that are there.
    pub session_binaries: Vec<String>,
    /// The session that a display manager starts by default.
    pub default_session: Option<String>,
}

/// What a [`DesktopEvidence`] holds.
#[verifier::ext_equal]
pub struct DesktopEvidenceView {
    pub session_files: Seq<Seq<char>>,
    pub session_binaries: Seq<Seq<char>>,
    pub default_session: Option<Seq<char>>,
}

impl DeepView for DesktopEvidence {
    type V = DesktopEvidenceView;

    open spec fn deep_view(&self) -> DesktopEvidenceView {
        DesktopEvidenceView {
            session_files: self.session_files.deep_view(),
            session_binaries: self.session_binaries.deep_view(),
            default_session: self.default_session.deep_view(),
        }
    }
}

impl Default for DesktopEvidence {
    fn default() -> (r: Self)
        ensures
            r.deep_view() == (DesktopEvidenceView {
                session_files: Seq::empty(),
                session_binaries: Seq::empty(),
                default_session: None,
            }),
    {
        let r: DesktopEvidence = DesktopEvidence {
            session_files: Vec::new(),
            session_binaries: Vec::new(),
            default_session: None,
        };
        assert(r.deep_view() =~= DesktopEvidenceView {
            session_files: Seq::empty(),
            session_binaries: Seq::empty(),
            default_session: None,
        });
        r
    }
}

/// The desktop of a filesystem.
#[derive(Debug, Clone, PartialEq, Eq)]
pub enum DesktopDetection {
    /// One, or several of which a display manager starts one by default.
    Single(DesktopEnvironment),
    /// Several, in order and each once, and nothing to choose by.
    Multiple(Vec<DesktopEnvironment>),
    /// None that is known.
    Unknown,
}

/// What a [`DesktopDetection`] holds.
#[verifier::ext_equal]
pub enum DesktopDetectionView {
    Single(DesktopEnvironment),
    Multiple(Seq<DesktopEnvironment>),
    Unknown,
}

impl DeepView for DesktopDetection {
    type V = DesktopDetectionView;

    open spec fn deep_view(&self) -> DesktopDetectionView {
        match self {
            DesktopDetection::Single(de) => DesktopDetectionView::Single(*de),
            DesktopDetection::Multiple(v) => DesktopDetectionView::Multiple(v@),
            DesktopDetection::Unknown => DesktopDetectionView::Unknown,
        }
    }
}

/// The one desktop, if there is no doubt about it.
pub open spec fn only_desktop(d: DesktopDetectionView) -> Option<DesktopEnvironment> {
    match d {
        DesktopDetectionView::Single(de) => Some(de),
        _ => None,
    }
}

/// The names of the desktops.
pub open spec fn desktop_names(des: Seq<DesktopEnvironment>) -> Seq<Seq<char>> {
    des.map_values(|d: DesktopEnvironment| desktop_name(d))
}

/// The verdict in words.
pub open spec fn detection_text(d: DesktopDetectionView) -> Seq<char> {
    match d {
        DesktopDetectionView::Single(de) => desktop_name(de),
        DesktopDetectionView::Multiple(des) => "multiple ("@ + join(desktop_names(des), ", "@)
            + ")"@,
        DesktopDetectionView::Unknown => "unknown"@,
    }
}

impl DesktopDetection {
    /// The one desktop, if there is no doubt about it.
    pub fn single(&self) -> (r: Option<DesktopEnvironment>)
        ensures
            r == only_desktop(self.deep_view()),
    {
        match self {
            DesktopDetection::Single(de) => Some(*de),
            _ => None,
        }
    }

    /// The verdict in words.
    pub fn describe(&self) -> (r: String)
        ensures
            r@ == detection_text(self.deep_view()),
    {
        match self {
            DesktopDetection::Single(de) => de.name(),
            DesktopDetection::Multiple(des) => {
                let mut names: Vec<String> = Vec::new();
                let mut i: usize = 0;
                while i < des.len()
                    invariant
                        i <= des@.len(),
                        names.deep_view() == desktop_names(des@).take(i as int),
                    decreases des@.len() - i,
                {
                    let ghost before = names.deep_view();
                    let n: String = des[i].name();
                    names.push(n);
                    proof {
                        assert(names.deep_view() =~= before.push(n@));
                        assert(names.deep_view() =~= desktop_names(des@).take(i + 1));
                    }
                    i = i + 1;
                }
                assert(desktop_names(des@).take(i as int) =~= desktop_names(des@));
                let mut s: String = "multiple (".to_owned();
                s.append(joined(names.as_slice(), ", ").as_str());
                s.append(")");
                s
            },
            DesktopDetection::Unknown => "unknown".to_owned(),
        }
    }
}

/// The session without the ending of its file, in small letters.
pub open spec fn session_stem(name: Seq<char>) -> Seq<char> {
    lower(trim_end_text(trim(name), ".desktop"@))
}

/// The desktop of the first marker that the text holds.
pub open spec fn marked_desktop(text: Seq<char>) -> Option<DesktopEnvironment> {
    if holds(text, "gnome"@) {
        Some(DesktopEnvironment::Gnome)
    } else if holds(text, "plasma"@) || holds(text, "kde"@) {
        Some(DesktopEnvironment::Kde)
    } else if holds(text, "cosmic"@) {
        Some(DesktopEnvironment::Cosmic)
    } else if holds(text, "niri"@) {
        Some(DesktopEnvironment::Niri)
    } else if holds(text, "xfce"@) {
        Some(DesktopEnvironment::Xfce)
    } else {
        None
    }
}

/// The desktop that a session belongs to. The first marker that the name holds
/// decides, since distributions ship variants of a session under longer names.
pub open spec fn session_desktop(name: Seq<char>) -> Option<DesktopEnvironment> {
    marked_desktop(session_stem(name))
}

/// Whether the text can be looked for beside the ending of a session's file: of
/// small letters, and not in that ending.
pub open spec fn is_marker(m: Seq<char>) -> bool {
    &&& m.len() > 0
    &&& forall|i: int| 0 <= i < m.len() ==> 'a' <= #[trigger] m[i] <= 'z'
    &&& !holds("desktop"@, m)
}

/// White space before the text does not matter to a marker.
proof fn lemma_marker_behind_white(s: Seq<char>, m: Seq<char>)
    requires
        is_marker(m),
    ensures
        holds(lower(s), m) <==> holds(lower(trim_start(s)), m),
    decreases s.len(),
{
    if s.len() > 0 && is_white(s[0]) {
        let rest = s.skip(1);
        lemma_marker_behind_white(rest, m);
        if holds(lower(s), m) {
            let i = choose|i: int| occurs_at(lower(s), m, i);
            assert(lower(s).subrange(i, i + m.len())[0] == lower(s)[i]);
            assert(i > 0);
            assert(lower(rest).subrange(i - 1, i - 1 + m.len()) =~= lower(s).subrange(
                i,
                i + m.len(),
            ));
            assert(occurs_at(lower(rest), m, i - 1));
        }
        if holds(lower(rest), m) {
            let i = choose|i: int| occurs_at(lower(rest), m, i);
            assert(lower(s).subrange(i + 1, i + 1 + m.len()) =~= lower(rest).subrange(
                i,
                i + m.len(),
            ));
            assert(occurs_at(lower(s), m, i + 1));
        }
    }
}

/// What stands in the beginning of a text stands in the text.
proof fn lemma_holds_of_take(s: Seq<char>, n: int, m: Seq<char>)
    requires
        0 <= n <= s.len(),
        holds(lower(s.take(n)), m),
    ensures
        holds(lower(s), m),
{
    let i = choose|i: int| occurs_at(lower(s.take(n)), m, i);
    assert(lower(s).subrange(i, i + m.len()) =~= lower(s.take(n)).subrange(i, i + m.len()));
    assert(occurs_at(lower(s), m, i));
}

/// White space behind the text does not matter to a marker.
proof fn lemma_marker_before_white(s: Seq<char>, m: Seq<char>)
    requires
        is_marker(m),
    ensures
        holds(lower(s), m) <==> holds(lower(trim_end(s)), m),
    decreases s.len(),
{
    if s.len() > 0 && is_white(s.last()) {
        let rest = s.drop_last();
        lemma_marker_before_white(rest, m);
        if holds(lower(s), m) {
            let i = choose|i: int| occurs_at(lower(s), m, i);
            let k = m.len() - 1;
            assert(lower(s).subrange(i, i + m.len())[k] == lower(s)[i + k]);
            assert(i + m.len() <= rest.len());
            assert(lower(rest).subrange(i, i + m.len()) =~= lower(s).subrange(i, i + m.len()));
            assert(occurs_at(lower(rest), m, i));
        }
        if holds(lower(rest), m) {
            assert(rest =~= s.take(s.len() - 1));
            lemma_holds_of_take(s, s.len() - 1, m);
        }
    }
}

/// The ending of the file does not matter to a marker.
proof fn lemma_marker_before_ending(s: Seq<char>, m: Seq<char>)
    requires
        is_marker(m),
    ensures
        holds(lower(s), m) <==> holds(lower(trim_end_text(s, ".desktop"@)), m),
    decreases s.len(),
{
    reveal_strlit(".desktop");
    reveal_strlit("desktop");
    let end = ".desktop"@;
    if finishes(s, end) {
        let n = s.len() - 8;
        let rest = s.take(n);
        lemma_marker_before_ending(rest, m);
        if holds(lower(s), m) {
            let i = choose|i: int| occurs_at(lower(s), m, i);
            let part = lower(s).subrange(i, i + m.len());
            assert forall|k: int| n <= k < s.len() implies lower(s)[k] == end[k - n] by {
                assert(s.skip(n)[k - n] == s[k]);
            }
            if i > n {
                assert("desktop"@.subrange(i - n - 1, i - n - 1 + m.len()) =~= part) by {
                    assert forall|k: int| 0 <= k < m.len() implies "desktop"@[i - n - 1 + k]
                        == part[k] by {
                        assert(part[k] == lower(s)[i + k]);
                        assert(end[i + k - n] == "desktop"@[i + k - n - 1]);
                    }
                }
                assert(occurs_at("desktop"@, m, i - n - 1));
            } else if i + m.len() > n {
                assert(part[n - i] == lower(s)[n]);
                assert(m[n - i] == '.');
            }
            assert(i + m.len() <= n);
            assert(lower(rest).subrange(i, i + m.len()) =~= part);
            assert(occurs_at(lower(rest), m, i));
        }
        if holds(lower(rest), m) {
            lemma_holds_of_take(s, n, m);
        }
    }
}

/// A marker stands in the name without its ending where it stands in the name.
proof fn lemma_marker_in_name(name: Seq<char>, m: Seq<char>)
    requires
        is_marker(m),
    ensures
        holds(lower(name), m) <==> holds(session_stem(name), m),
{
    lemma_marker_behind_white(name, m);
    lemma_marker_before_white(trim_start(name), m);
    lemma_marker_before_ending(trim(name), m);
}

/// The text is not part of the ending of a session's file where no two
/// characters of that are its first two.
proof fn lemma_marker(m: Seq<char>)
    requires
        m.len() > 1,
        forall|i: int| 0 <= i < m.len() ==> 'a' <= #[trigger] m[i] <= 'z',
        forall|i: int|
            0 <= i < 6 ==> !(#[trigger] "desktop"@[i] == m[0] && "desktop"@[i + 1] == m[1]),
    ensures
        is_marker(m),
{
    reveal_strlit("desktop");
    let d = "desktop"@;
    if holds(d, m) {
        let i = choose|i: int| occurs_at(d, m, i);
        let part = d.subrange(i, i + m.len());
        assert(part[0] == d[i] && part[1] == d[i + 1]);
    }
}

/// The ending of a session's file, white space around its name and the case of
/// its letters make no difference: the desktop is that of the first marker in
/// the whole name, in small letters.
pub proof fn law_session_is_known_by_its_whole_name(name: Seq<char>)
    ensures
        session_desktop(name) == marked_desktop(lower(name)),
{
    reveal_strlit("desktop");
    reveal_strlit("gnome");
    reveal_strlit("plasma");
    reveal_strlit("kde");
    reveal_strlit("cosmic");
    reveal_strlit("niri");
    reveal_strlit("xfce");
    lemma_marker("gnome"@);
    lemma_marker("plasma"@);
    lemma_marker("kde"@);
    lemma_marker("cosmic"@);
    lemma_marker("niri"@);
    lemma_marker("xfce"@);
    lemma_marker_in_name(name, "gnome"@);
    lemma_marker_in_name(name, "plasma"@);
    lemma_marker_in_name(name, "kde"@);
    lemma_marker_in_name(name, "cosmic"@);
    lemma_marker_in_name(name, "niri"@);
    lemma_marker_in_name(name, "xfce"@);
}

/// Names that differ in nothing but the case of their letters are of one
/// desktop.
pub proof fn law_case_of_a_session_does_not_matter(a: Seq<char>, b: Seq<char>)
    requires
        same_ignoring_case(a, b),
    ensures
        session_desktop(a) == session_desktop(b),
{
    law_session_is_known_by_its_whole_name(a);
    law_session_is_known_by_its_whole_name(b);
}

/// The desktop that a session belongs to, by the name of its file or as a
/// display manager's configuration gives it.
pub fn classify_session_name(name: &str) -> (r: Option<DesktopEnvironment>)
    ensures
        r == session_desktop(name@),
{
    let t: String = trimmed(name);
    let t: String = trimmed_end_text(t.as_str(), ".desktop");
    let stem: String = to_lower(t.as_str());
    if contains(stem.as_str(), "gnome") {
        Some(DesktopEnvironment::Gnome)
    } else if contains(stem.as_str(), "plasma") || contains(stem.as_str(), "kde") {
        Some(DesktopEnvironment::Kde)
    } else if contains(stem.as_str(), "cosmic") {
        Some(DesktopEnvironment::Cosmic)
    } else if contains(stem.as_str(), "niri") {
        Some(DesktopEnvironment::Niri)
    } else if contains(stem.as_str(), "xfce") {
        Some(DesktopEnvironment::Xfce)
    } else {
        None
    }
}

/// The binaries of the sessions, below the root.
pub open spec fn binary_markers() -> Seq<Seq<char>> {
    seq![
        "usr/bin/gnome-shell"@,
        "usr/bin/plasmashell"@,
        "usr/bin/cosmic-comp"@,
        "usr/bin/niri"@,
        "usr/bin/xfce4-session"@,
    ]
}

/// The desktop whose session the binary is.
pub open spec fn binary_desktop(path: Seq<char>) -> Option<DesktopEnvironment> {
    let p = trim_start_char(path, '/');
    if p == "usr/bin/gnome-shell"@ {
        Some(DesktopEnvironment::Gnome)
    } else if p == "usr/bin/plasmashell"@ {
        Some(DesktopEnvironment::Kde)
    } else if p == "usr/bin/cosmic-comp"@ {
        Some(DesktopEnvironment::Cosmic)
    } else if p == "usr/bin/niri"@ {
        Some(DesktopEnvironment::Niri)
    } else if p == "usr/bin/xfce4-session"@ {
        Some(DesktopEnvironment::Xfce)
    } else {
        None
    }
}

/// The desktop whose session the binary is.
pub fn classify_binary_path(path: &str) -> (r: Option<DesktopEnvironment>)
    ensures
        r == binary_desktop(path@),
{
    let p: String = trimmed_start_char(path, '/');
    if same(p.as_str(), "usr/bin/gnome-shell") {
        Some(DesktopEnvironment::Gnome)
    } else if same(p.as_str(), "usr/bin/plasmashell") {
        Some(DesktopEnvironment::Kde)
    } else if same(p.as_str(), "usr/bin/cosmic-comp") {
        Some(DesktopEnvironment::Cosmic)
    } else if same(p.as_str(), "usr/bin/niri") {
        Some(DesktopEnvironment::Niri)
    } else if same(p.as_str(), "usr/bin/xfce4-session") {
        Some(DesktopEnvironment::Xfce)
    } else {
        None
    }
}

/// Whether a session file or a binary points at the desktop.
pub open spec fn is_shown(e: DesktopEvidenceView, de: DesktopEnvironment) -> bool {
    ||| exists|i: int|
        0 <= i < e.session_files.len() && session_desktop(#[trigger] e.session_files[i]) == Some(
            de,
        )
    ||| exists|i: int|
        0 <= i < e.session_binaries.len() && binary_desktop(#[trigger] e.session_binaries[i])
            == Some(de)
}

/// The desktop alone, if it is shown.
pub open spec fn if_shown(
    e: DesktopEvidenceView,
    de: DesktopEnvironment,
) -> Seq<DesktopEnvironment> {
    if is_shown(e, de) {
        seq![de]
    } else {
        Seq::empty()
    }
}

/// The desktops that the evidence shows, in order and each once.
pub open spec fn shown_desktops(e: DesktopEvidenceView) -> Seq<DesktopEnvironment> {
    if_shown(e, DesktopEnvironment::Gnome) + if_shown(e, DesktopEnvironment::Kde) + if_shown(
        e,
        DesktopEnvironment::Cosmic,
    ) + if_shown(e, DesktopEnvironment::Niri) + if_shown(e, DesktopEnvironment::Xfce)
}

/// What is concluded: the default session decides where it names a known desktop, and
/// otherwise all that is shown.
pub open spec fn verdict(e: DesktopEvidenceView) -> DesktopDetectionView {
    let named = match e.default_session {
        Some(s) => session_desktop(s),
        None => None,
    };
    match named {
        Some(de) => DesktopDetectionView::Single(de),
        None => {
            let shown = shown_desktops(e);
            if shown.len() == 0 {
                DesktopDetectionView::Unknown
            } else if shown.len() == 1 {
                DesktopDetectionView::Single(shown[0])
            } else {
                DesktopDetectionView::Multiple(shown)
            }
        },
    }
}

/// Whether a session file or a binary points at the desktop.
fn shows(evidence: &DesktopEvidence, de: DesktopEnvironment) -> (r: bool)
    ensures
        r == is_shown(evidence.deep_view(), de),
{
    let ghost e = evidence.deep_view();
    let mut i: usize = 0;
    while i < evidence.session_files.len()
        invariant
            e == evidence.deep_view(),
            i <= evidence.session_files@.len(),
            forall|k: int| 0 <= k < i ==> session_desktop(#[trigger] e.session_files[k]) != Some(de),
        decreases evidence.session_files@.len() - i,
    {
        assert(e.session_files[i as int] == evidence.session_files@[i as int]@);
        if classify_session_name(evidence.session_files[i].as_str()) == Some(de) {
            return true;
        }
        i = i + 1;
    }
    let mut j: usize = 0;
    while j < evidence.session_binaries.len()
        invariant
            e == evidence.deep_view(),
            j <= evidence.session_binaries@.len(),
            forall|k: int|
                0 <= k < e.session_files.len() ==> session_desktop(#[trigger] e.session_files[k])
                    != Some(de),
            forall|k: int|
                0 <= k < j ==> binary_desktop(#[trigger] e.session_binaries[k]) != Some(de),
        decreases evidence.session_binaries@.len() - j,
    {
        assert(e.session_binaries[j as int] == evidence.session_binaries@[j as int]@);
        if classify_binary_path(evidence.session_binaries[j].as_str()) == Some(de) {
            return true;
        }
        j = j + 1;
    }
    false
}

/// Adds the desktop, if the evidence shows it.
fn add_if_shown(
    list: &mut Vec<DesktopEnvironment>,
    evidence: &DesktopEvidence,
    de: DesktopEnvironment,
)
    ensures
        final(list)@ == old(list)@ + if_shown(evidence.deep_view(), de),
{
    if shows(evidence, de) {
        list.push(de);
        assert(list@ =~= old(list)@ + if_shown(evidence.deep_view(), de));
    } else {
        assert(list@ =~= old(list)@ + if_shown(evidence.deep_view(), de));
    }
}

/// The desktop that the evidence points at.
pub fn detect_desktop(evidence: &DesktopEvidence) -> (r: DesktopDetection)
    ensures
        r.deep_view() == verdict(evidence.deep_view()),
{
    match &evidence.default_session {
        Some(s) => match classify_session_name(s.as_str()) {
            Some(de) => {
                return DesktopDetection::Single(de);
            },
            None => {},
        },
        None => {},
    }
    let ghost e = evidence.deep_view();
    let mut shown: Vec<DesktopEnvironment> = Vec::new();
    add_if_shown(&mut shown, evidence, DesktopEnvironment::Gnome);
    assert(shown@ =~= if_shown(e, DesktopEnvironment::Gnome));
    add_if_shown(&mut shown, evidence, DesktopEnvironment::Kde);
    add_if_shown(&mut shown, evidence, DesktopEnvironment::Cosmic);
    add_if_shown(&mut shown, evidence, DesktopEnvironment::Niri);
    add_if_shown(&mut shown, evidence, DesktopEnvironment::Xfce);
    if shown.len() == 0 {
        DesktopDetection::Unknown
    } else if shown.len() == 1 {
        DesktopDetection::Single(shown[0])
    } else {
        DesktopDetection::Multiple(shown)
    }
}

/// Whether the key names the default session.
pub open spec fn is_session_key(key: Seq<char>) -> bool {
    let k = lower(key);
    k == "session"@ || k == "user-session"@ || k == "defaultsession"@
}

/// The first default session among the items.
pub open spec fn session_in_items(items: Items) -> Option<Seq<char>>
    decreases items.len(),
{
    if items.len() == 0 {
        None
    } else if is_session_key(items[0].0) && trim(items[0].1).len() > 0 {
        Some(trim(items[0].1))
    } else {
        session_in_items(items.skip(1))
    }
}

/// The first default session in the document. The names of the sections vary
/// between display managers and are ignored.
pub open spec fn session_in(doc: Sections) -> Option<Seq<char>>
    decreases doc.len(),
{
    if doc.len() == 0 {
        None
    } else {
        match session_in_items(doc[0].1) {
            Some(s) => Some(s),
            None => session_in(doc.skip(1)),
        }
    }
}

/// The first default session among the items.
fn default_session_among(items: &[(String, String)]) -> (r: Option<String>)
    ensures
        r.deep_view() == session_in_items(items.deep_view()),
{
    let ghost all = items.deep_view();
    let mut i: usize = 0;
    assert(all.skip(0) =~= all);
    while i < items.len()
        invariant
            all == items.deep_view(),
            i <= items@.len(),
            session_in_items(all) == session_in_items(all.skip(i as int)),
        decreases items@.len() - i,
    {
        proof {
            assert(all.skip(i as int)[0] == (items@[i as int].0@, items@[i as int].1@));
            assert(all.skip(i as int).skip(1) =~= all.skip(i + 1));
        }
        let key: String = to_lower(items[i].0.as_str());
        if same(key.as_str(), "session") || same(key.as_str(), "user-session") || same(
            key.as_str(),
            "defaultsession",
        ) {
            let value: String = trimmed(items[i].1.as_str());
            if !value.as_str().is_empty() {
                return Some(value);
            }
        }
        i = i + 1;
    }
    None
}

/// The first default session in the sections of a configuration.
pub fn default_session_in(sections: &[(String, Vec<(String, String)>)]) -> (r: Option<String>)
    ensures
        r.deep_view() == session_in(sections.deep_view()),
{
    let ghost all = sections.deep_view();
    let mut i: usize = 0;
    assert(all.skip(0) =~= all);
    while i < sections.len()
        invariant
            all == sections.deep_view(),
            i <= sections@.len(),
            session_in(all) == session_in(all.skip(i as int)),
        decreases sections@.len() - i,
    {
        proof {
            assert(all.skip(i as int)[0].1 == sections@[i as int].1.deep_view());
            assert(all.skip(i as int).skip(1) =~= all.skip(i + 1));
        }
        match default_session_among(sections[i].1.as_slice()) {
            Some(s) => {
                return Some(s);
            },
            None => {},
        }
        i = i + 1;
    }
    None
}

/// The message for a configuration that is none.
pub open spec fn not_ini(m: Seq<char>) -> Seq<char> {
    "display-manager config is not valid INI: "@ + m
}

/// The default session that a display manager's configuration names, if it
/// does. One that cannot be read is an error: taking it for one without a
/// default session would turn a slip into a wrong verdict.
pub fn parse_display_manager_default_session(content: &str) -> (r: Result<Option<String>, String>)
    ensures
        match ini_document(content@) {
            Ok(doc) => r is Ok && r->Ok_0.deep_view() == session_in(doc),
            Err(m) => r is Err && r->Err_0@ == not_ini(m),
        },
{
    match parse_ini(content) {
        Ok(ini) => {
            let sections: Vec<(String, Vec<(String, String)>)> = ini_all(&ini);
            Ok(default_session_in(sections.as_slice()))
        },
        Err(e) => {
            let mut m: String = "display-manager config is not valid INI: ".to_owned();
            m.append(e.as_str());
            Err(m)
        },
    }
}

/// The directories of the session files, below the root.
pub open spec fn session_dirs() -> Seq<Seq<char>> {
    seq!["usr/share/xsessions"@, "usr/share/wayland-sessions"@]
}

/// The configuration files of display managers, below the root.
pub open spec fn display_manager_files() -> Seq<Seq<char>> {
    seq!["etc/sddm.conf"@, "etc/lightdm/lightdm.conf"@, "etc/gdm/custom.conf"@]
}

/// The directories of display managers' drop-ins, below the root.
pub open spec fn display_manager_dirs() -> Seq<Seq<char>> {
    seq![
        "etc/sddm.conf.d"@,
        "usr/lib/sddm/sddm.conf.d"@,
        "usr/share/sddm/sddm.conf.d"@,
        "etc/lightdm/lightdm.conf.d"@,
    ]
}

/// Where the sessions are described, below the root.
pub fn session_directories() -> (r: Vec<String>)
    ensures
        r.deep_view() == session_dirs(),
{
    let r: Vec<String> = owned_all(&["usr/share/xsessions", "usr/share/wayland-sessions"]);
    assert(r.deep_view() =~= session_dirs());
    r
}

/// Where the display managers have their drop-ins, below the root.
pub fn drop_in_directories() -> (r: Vec<String>)
    ensures
        r.deep_view() == display_manager_dirs(),
{
    let r: Vec<String> = owned_all(
        &[
            "etc/sddm.conf.d",
            "usr/lib/sddm/sddm.conf.d",
            "usr/share/sddm/sddm.conf.d",
            "etc/lightdm/lightdm.conf.d",
        ],
    );
    assert(r.deep_view() =~= display_manager_dirs());
    r
}

/// Everything that the detection needs from an image, below its root.
pub fn evidence_paths() -> (r: Vec<String>)
    ensures
        r.deep_view() == session_dirs() + binary_markers() + display_manager_files()
            + display_manager_dirs(),
{
    let r: Vec<String> = owned_all(
        &[
            "usr/share/xsessions",
            "usr/share/wayland-sessions",
            "usr/bin/gnome-shell",
            "usr/bin/plasmashell",
            "usr/bin/cosmic-comp",
            "usr/bin/niri",
            "usr/bin/xfce4-session",
            "etc/sddm.conf",
            "etc/lightdm/lightdm.conf",
            "etc/gdm/custom.conf",
            "etc/sddm.conf.d",
            "usr/lib/sddm/sddm.conf.d",
            "usr/share/sddm/sddm.conf.d",
            "etc/lightdm/lightdm.conf.d",
        ],
    );
    assert(r.deep_view() =~= session_dirs() + binary_markers() + display_manager_files()
        + display_manager_dirs());
    r
}

/// Those of the paths that exist.
pub open spec fn present(paths: Seq<Seq<char>>, existing: Seq<Seq<char>>) -> Seq<Seq<char>>
    decreases paths.len(),
{
    if paths.len() == 0 {
        Seq::empty()
    } else if existing.contains(paths.last()) {
        present(paths.drop_last(), existing).push(paths.last())
    } else {
        present(paths.drop_last(), existing)
    }
}

/// Those of the paths that exist.
fn present_paths(paths: &[String], existing: &[String]) -> (r: Vec<String>)
    ensures
        r.deep_view() == present(paths.deep_view(), existing.deep_view()),
{
    let ghost all = paths.deep_view();
    let mut r: Vec<String> = Vec::new();
    let mut i: usize = 0;
    assert(r.deep_view() =~= present(all.take(0), existing.deep_view()));
    while i < paths.len()
        invariant
            all == paths.deep_view(),
            i <= paths@.len(),
            r.deep_view() == present(all.take(i as int), existing.deep_view()),
        decreases paths@.len() - i,
    {
        proof {
            assert(all[i as int] == paths@[i as int]@);
            assert(all.take(i + 1).drop_last() =~= all.take(i as int));
            assert(all.take(i + 1).last() == all[i as int]);
        }
        let ghost before = r.deep_view();
        if list_contains(existing, paths[i].as_str()) {
            r.push(paths[i].clone());
            assert(r.deep_view() =~= before.push(all[i as int]));
        }
        i = i + 1;
    }
    assert(all.take(i as int) =~= all);
    r
}

/// The names with the extension of a configuration file.
pub open spec fn conf_names(names: Seq<Seq<char>>) -> Seq<Seq<char>>
    decreases names.len(),
{
    if names.len() == 0 {
        Seq::empty()
    } else if is_conf_name(names.last()) {
        conf_names(names.drop_last()).push(names.last())
    } else {
        conf_names(names.drop_last())
    }
}

/// The drop-ins of a directory in order, from what it lists.
pub open spec fn drop_ins_in(dir: Seq<char>, names: Seq<Seq<char>>) -> Seq<Seq<char>> {
    sorted_texts(conf_names(names)).map_values(|n: Seq<char>| join_path(dir, n))
}

/// The drop-ins of the directories. Each comes with what it lists.
pub open spec fn all_drop_ins(dirs: Seq<(Seq<char>, Seq<Seq<char>>)>) -> Seq<Seq<char>>
    decreases dirs.len(),
{
    if dirs.len() == 0 {
        Seq::empty()
    } else {
        all_drop_ins(dirs.drop_last()) + drop_ins_in(dirs.last().0, dirs.last().1)
    }
}

/// The drop-ins of a directory in order.
fn sorted_drop_ins(dir: &str, names: &[String]) -> (r: Vec<String>)
    ensures
        r.deep_view() == drop_ins_in(dir@, names.deep_view()),
{
    let ghost all = names.deep_view();
    let mut found: Vec<String> = Vec::new();
    let mut i: usize = 0;
    assert(found.deep_view() =~= conf_names(all.take(0)));
    while i < names.len()
        invariant
            all == names.deep_view(),
            i <= names@.len(),
            found.deep_view() == conf_names(all.take(i as int)),
        decreases names@.len() - i,
    {
        proof {
            assert(all[i as int] == names@[i as int]@);
            assert(all.take(i + 1).drop_last() =~= all.take(i as int));
            assert(all.take(i + 1).last() == all[i as int]);
        }
        let ghost before = found.deep_view();
        if conf_name(names[i].as_str()) {
            found.push(names[i].clone());
            assert(found.deep_view() =~= before.push(all[i as int]));
        }
        i = i + 1;
    }
    assert(all.take(i as int) =~= all);
    let sorted: Vec<String> = sort_texts(found.as_slice());
    let ghost order = sorted.deep_view();
    let ghost want = order.map_values(|n: Seq<char>| join_path(dir@, n));
    let mut r: Vec<String> = Vec::new();
    let mut j: usize = 0;
    while j < sorted.len()
        invariant
            order == sorted.deep_view(),
            want == order.map_values(|n: Seq<char>| join_path(dir@, n)),
            j <= sorted@.len(),
            r.deep_view() == want.take(j as int),
        decreases sorted@.len() - j,
    {
        let ghost before = r.deep_view();
        let p: String = path_join(dir, sorted[j].as_str());
        r.push(p);
        proof {
            assert(order[j as int] == sorted@[j as int]@);
            assert(r.deep_view() =~= before.push(p@));
            assert(r.deep_view() =~= want.take(j + 1));
        }
        j = j + 1;
    }
    assert(want.take(j as int) =~= want);
    r
}

/// The configuration files of display managers in the order in which they are
/// looked at: the known files among `files`, then the drop-ins of each of the
/// directories, which come with what they list.
pub fn display_manager_config_files(files: &[String], dirs: &[(String, Vec<String>)]) -> (r: Vec<
    String,
>)
    ensures
        r.deep_view() == present(display_manager_files(), files.deep_view()) + all_drop_ins(
            dirs.deep_view(),
        ),
{
    let known: Vec<String> = owned_all(
        &["etc/sddm.conf", "etc/lightdm/lightdm.conf", "etc/gdm/custom.conf"],
    );
    assert(known.deep_view() =~= display_manager_files());
    let mut r: Vec<String> = present_paths(known.as_slice(), files);
    let ghost start = r.deep_view();
    let ghost all = dirs.deep_view();
    let mut i: usize = 0;
    assert(all.take(0) =~= Seq::empty());
    assert(r.deep_view() =~= start + all_drop_ins(all.take(0)));
    while i < dirs.len()
        invariant
            all == dirs.deep_view(),
            i <= dirs@.len(),
            r.deep_view() == start + all_drop_ins(all.take(i as int)),
        decreases dirs@.len() - i,
    {
        let mut found: Vec<String> = sorted_drop_ins(dirs[i].0.as_str(), dirs[i].1.as_slice());
        let ghost before = r.deep_view();
        let ghost more = found.deep_view();
        proof {
            assert(all[i as int] == (dirs@[i as int].0@, dirs@[i as int].1.deep_view()));
            assert(all.take(i + 1).drop_last() =~= all.take(i as int));
            assert(all.take(i + 1).last() == all[i as int]);
        }
        r.append(&mut found);
        proof {
            assert(r.deep_view() =~= before + more);
            assert(r.deep_view() =~= start + all_drop_ins(all.take(i + 1)));
        }
        i = i + 1;
    }
    assert(all.take(i as int) =~= all);
    r
}

/// The default session that the first of the configurations to name one names.
/// Each comes with its path.
pub open spec fn first_session(configs: Seq<(Seq<char>, Seq<char>)>) -> Result<
    Option<Seq<char>>,
    Seq<char>,
>
    decreases configs.len(),
{
    if configs.len() == 0 {
        Ok(None)
    } else {
        match ini_document(configs[0].1) {
            Err(m) => Err(
                "parsing display-manager config "@ + configs[0].0 + ": "@ + not_ini(m),
            ),
            Ok(doc) => match session_in(doc) {
                Some(s) => Ok(Some(s)),
                None => first_session(configs.skip(1)),
            },
        }
    }
}

/// The default session that the first of the configurations to name one names.
fn first_default_session(configs: &[(String, String)]) -> (r: Result<Option<String>, String>)
    ensures
        match first_session(configs.deep_view()) {
            Ok(s) => r is Ok && r->Ok_0.deep_view() == s,
            Err(m) => r is Err && r->Err_0@ == m,
        },
{
    let ghost all = configs.deep_view();
    let mut i: usize = 0;
    assert(all.skip(0) =~= all);
    while i < configs.len()
        invariant
            all == configs.deep_view(),
            i <= configs@.len(),
            first_session(all) == first_session(all.skip(i as int)),
        decreases configs@.len() - i,
    {
        proof {
            assert(all.skip(i as int)[0] == (configs@[i as int].0@, configs@[i as int].1@));
            assert(all.skip(i as int).skip(1) =~= all.skip(i + 1));
        }
        match parse_display_manager_default_session(configs[i].1.as_str()) {
            Ok(Some(s)) => {
                return Ok(Some(s));
            },
            Ok(None) => {},
            Err(e) => {
                let mut m: String = "parsing display-manager config ".to_owned();
                m.append(configs[i].0.as_str());
                m.append(": ");
                m.append(e.as_str());
                return Err(m);
            },
        }
        i = i + 1;
    }
    Ok(None)
}

/// The evidence of a filesystem, or why a configuration could not be read.
/// `session_names` are the files in the directories of sessions, `existing` the
/// paths below the root that exist, and `configs` the display managers'
/// configurations in order, each with its path.
pub fn collect_evidence_from_root(
    session_names: &[String],
    existing: &[String],
    configs: &[(String, String)],
) -> (r: Result<DesktopEvidence, String>)
    ensures
        match first_session(configs.deep_view()) {
            Ok(s) => r is Ok && r->Ok_0.deep_view() == (DesktopEvidenceView {
                session_files: sorted_texts(session_names.deep_view()),
                session_binaries: present(binary_markers(), existing.deep_view()),
                default_session: s,
            }),
            Err(m) => r is Err && r->Err_0@ == m,
        },
{
    let session_files: Vec<String> = sort_texts(session_names);
    let markers: Vec<String> = owned_all(
        &[
            "usr/bin/gnome-shell",
            "usr/bin/plasmashell",
            "usr/bin/cosmic-comp",
            "usr/bin/niri",
            "usr/bin/xfce4-session",
        ],
    );
    assert(markers.deep_view() =~= binary_markers());
    let session_binaries: Vec<String> = present_paths(markers.as_slice(), existing);
    match first_default_session(configs) {
        Ok(default_session) => Ok(
            DesktopEvidence { session_files, session_binaries, default_session },
        ),
        Err(m) => Err(m),
    }
}

/// The two desktops, where both are beyond doubt and differ.
pub open spec fn differing(
    from: DesktopDetectionView,
    to: DesktopDetectionView,
) -> Option<(DesktopEnvironment, DesktopEnvironment)> {
    match only_desktop(from) {
        Some(a) => match only_desktop(to) {
            Some(b) => if a != b {
                Some((a, b))
            } else {
                None
            },
            None => None,
        },
        None => None,
    }
}

/// The two desktops of a re-base that changes the desktop: both are beyond
/// doubt, and they differ.
pub fn cross_desktop_pair(from: &DesktopDetection, to: &DesktopDetection) -> (r: Option<
    (DesktopEnvironment, DesktopEnvironment),
>)
    ensures
        r == differing(from.deep_view(), to.deep_view()),
{
    match from.single() {
        Some(a) => match to.single() {
            Some(b) => if a != b {
                Some((a, b))
            } else {
                None
            },
            None => None,
        },
        None => None,
    }
}

/// A desktop that is in doubt is never guessed at.
pub proof fn law_doubt_moves_nothing(from: DesktopDetectionView, to: DesktopDetectionView)
    requires
        only_desktop(from) is None || only_desktop(to) is None,
    ensures
        differing(from, to) is None,
{
}

/// The verdict holds what the evidence shows: a single desktop is named as the
/// default or is the only one shown, and several are all shown.
pub proof fn law_verdict_is_shown(e: DesktopEvidenceView)
    ensures
        match verdict(e) {
            DesktopDetectionView::Single(de) => (e.default_session is Some && session_desktop(
                e.default_session->0,
            ) == Some(de)) || is_shown(e, de),
            DesktopDetectionView::Multiple(des) => des.len() > 1 && forall|i: int|
                0 <= i < des.len() ==> is_shown(e, #[trigger] des[i]),
            DesktopDetectionView::Unknown => forall|de: DesktopEnvironment|
                !#[trigger] is_shown(e, de),
        },
{
    let shown = shown_desktops(e);
    assert forall|i: int| 0 <= i < shown.len() implies is_shown(e, #[trigger] shown[i]) by {}
    if shown.len() == 0 {
        assert forall|de: DesktopEnvironment| !#[trigger] is_shown(e, de) by {
            match de {
                DesktopEnvironment::Gnome => {},
                DesktopEnvironment::Kde => {},
                DesktopEnvironment::Cosmic => {},
                DesktopEnvironment::Niri => {},
                DesktopEnvironment::Xfce => {},
            }
        }
    }
}

} // verus!
