//! What the target image needs changed in a deployment that was staged for it.
//!
//! Two hazards depend on what the target ships rather than on what the source
//! did. An image may hide Mesa's GBM backend behind NVIDIA's, and the Wi-Fi
//! backend that the source chose for NetworkManager may not be in the target.
//! What the user provides is kept, and a symbolic link is refused rather than
//! followed.

use vstd::prelude::*;

use crate::ini::{
    erased_all, ini_all, ini_at, ini_document, ini_erase, ini_get, ini_section,
    ini_sections, ini_text, lemma_erased_all, lookup, names_differ, parse_ini, rendered,
    section_items, Items, Sections,
};
use crate::text::chars::is_white;
use crate::text::order::{list_contains, sort_texts, sorted_texts};
use crate::text::paths::{conf_name, is_conf_name, join_path, path_join};
use crate::text::pieces::{
    lemma_split_nonempty, lemma_split_tail, lines, lines_of, split, trim, trim_start, trimmed,
    trimmed_start, without_cr,
};
use crate::text::search::{
    begins, contains, cut, holds, lemma_first_index_unique, lower, same,
    same_ignore_case, same_ignoring_case, split_once, starts_with, to_lower,
};

verus! {

/// Whether the image is one for NVIDIA hardware, by its name.
pub fn is_nvidia_target(target_image: &str) -> (r: bool)
    ensures
        r == holds(lower(target_image@), "nvidia"@),
{
    let low: String = to_lower(target_image);
    contains(low.as_str(), "nvidia")
}

/// Where the target keeps its GBM backends.
#[derive(Debug, Clone, Copy, PartialEq, Eq, Structural)]
pub struct GbmLayout {
    /// Whether the active path is a directory.
    pub active_is_dir: bool,
    /// Whether Mesa's backend is under the active path.
    pub active_has_mesa: bool,
    /// Whether Mesa's backend is under its own path.
    pub default_has_mesa: bool,
}

/// Whether Mesa's backend is there and the active path does not show it.
pub open spec fn is_split(l: GbmLayout) -> bool {
    l.active_is_dir && l.default_has_mesa && !l.active_has_mesa
}

/// Whether Mesa's backend is there and the active path does not show it.
pub fn has_split_gbm_backend_layout(layout: GbmLayout) -> (r: bool)
    ensures
        r == is_split(layout),
{
    layout.active_is_dir && layout.default_has_mesa && !layout.active_has_mesa
}

/// Whether the line sets the search path for GBM backends.
pub open spec fn sets_backends_path(line: Seq<char>) -> bool {
    let l = trim_start(line);
    !begins(l, "#"@) && match split_once(l, '=') {
        Some(kv) => trim(kv.0) == "GBM_BACKENDS_PATH"@,
        None => false,
    }
}

/// Whether one of the lines sets the search path.
pub open spec fn backends_path_set(ls: Seq<Seq<char>>) -> bool {
    exists|i: int| 0 <= i < ls.len() && sets_backends_path(#[trigger] ls[i])
}

/// The line that sets the search path: the active path first, then Mesa's own.
pub open spec fn backends_path_line(arch: Seq<char>) -> Seq<char> {
    "GBM_BACKENDS_PATH=/usr/lib/"@ + arch + "-linux-gnu/GL/lib/gbm:/usr/lib/"@ + arch
        + "-linux-gnu/GL/default/lib/gbm"@
}

/// The environment, ended by a line feed where it is not empty.
pub open spec fn ended(environment: Seq<char>) -> Seq<char> {
    if environment.len() > 0 && environment.last() != '\n' {
        environment + "\n"@
    } else {
        environment
    }
}

/// The environment with the search path set.
pub open spec fn with_backends_path(environment: Seq<char>, arch: Seq<char>) -> Seq<char> {
    ended(environment)
        + "# Compatibility for target images with split Mesa and NVIDIA GBM backends\n"@
        + backends_path_line(arch) + "\n"@
}

/// Whether one of the lines sets the search path.
fn sets_path_already(environment: &str) -> (r: bool)
    ensures
        r == backends_path_set(lines(environment@)),
{
    let ls: Vec<String> = lines_of(environment);
    let ghost all = ls.deep_view();
    let mut i: usize = 0;
    while i < ls.len()
        invariant
            all == ls.deep_view(),
            all == lines(environment@),
            i <= ls@.len(),
            forall|k: int| 0 <= k < i ==> !sets_backends_path(#[trigger] all[k]),
        decreases ls@.len() - i,
    {
        assert(all[i as int] == ls@[i as int]@);
        let l: String = trimmed_start(ls[i].as_str());
        if !starts_with(l.as_str(), "#") {
            match cut(l.as_str(), '=') {
                Some((key, _)) => {
                    let key: String = trimmed(key.as_str());
                    if same(key.as_str(), "GBM_BACKENDS_PATH") {
                        return true;
                    }
                },
                None => {},
            }
        }
        i = i + 1;
    }
    false
}

/// The text of `/etc/environment` with the search path for GBM backends set,
/// for a machine of the given architecture, or nothing where it is set already.
pub fn configure_gbm_backend_compat(environment: &str, arch: &str) -> (r: Option<String>)
    ensures
        r.deep_view() == (if backends_path_set(lines(environment@)) {
            None
        } else {
            Some(with_backends_path(environment@, arch@))
        }),
{
    if sets_path_already(environment) {
        return None;
    }
    let mut e: String = environment.to_owned();
    let n: usize = environment.unicode_len();
    if n > 0 && environment.get_char(n - 1) != '\n' {
        e.append("\n");
    }
    assert(e@ == ended(environment@));
    e.append("# Compatibility for target images with split Mesa and NVIDIA GBM backends\n");
    let mut l: String = "GBM_BACKENDS_PATH=/usr/lib/".to_owned();
    l.append(arch);
    l.append("-linux-gnu/GL/lib/gbm:/usr/lib/");
    l.append(arch);
    l.append("-linux-gnu/GL/default/lib/gbm");
    e.append(l.as_str());
    e.append("\n");
    Some(e)
}

/// The new text of `/etc/environment` for the target, where it needs one: an
/// image for NVIDIA hardware does, and one that hides Mesa's backend.
pub fn apply_target_gbm_backend_compat(
    target_image: &str,
    layout: GbmLayout,
    environment: &str,
    arch: &str,
) -> (r: Option<String>)
    ensures
        r.deep_view() == (if !holds(lower(target_image@), "nvidia"@) && !is_split(layout)
            || backends_path_set(lines(environment@)) {
            None
        } else {
            Some(with_backends_path(environment@, arch@))
        }),
{
    if !is_nvidia_target(target_image) && !has_split_gbm_backend_layout(layout) {
        return None;
    }
    configure_gbm_backend_compat(environment, arch)
}

/// The new text of `/etc/environment` for a deployment that was staged before,
/// where its image is one for NVIDIA hardware.
pub fn refresh_staged_nvidia_gbm_compat(target_image: &str, environment: &str, arch: &str) -> (r:
    Option<String>)
    ensures
        r.deep_view() == (if !holds(lower(target_image@), "nvidia"@) || backends_path_set(
            lines(environment@),
        ) {
            None
        } else {
            Some(with_backends_path(environment@, arch@))
        }),
{
    if !is_nvidia_target(target_image) {
        return None;
    }
    configure_gbm_backend_compat(environment, arch)
}

/// What was written and ended by a line feed is one of the lines.
proof fn lemma_written_line(a: Seq<char>, x: Seq<char>)
    requires
        a.len() > 0,
        a.last() == '\n',
        !x.contains('\n'),
        x.len() > 0,
        x.last() != '\r',
    ensures
        lines(a + x + "\n"@).contains(x),
{
    reveal_strlit("\n");
    let s = a + x + "\n"@;
    lemma_split_nonempty(a.drop_last(), '\n');
    let parts = split(a, '\n');
    assert(parts.last() =~= Seq::empty());
    lemma_split_tail(a, x, '\n');
    let with_x = split(a + x, '\n');
    assert(with_x.last() =~= x);
    assert(s.drop_last() =~= a + x);
    assert(s.last() == '\n');
    assert(split(s, '\n') == with_x.push(Seq::empty()));
    let all = split(s, '\n');
    assert(all.drop_last() =~= with_x);
    let done = all.drop_last().map_values(|l: Seq<char>| without_cr(l));
    assert(done[with_x.len() - 1] == without_cr(x));
    assert(lines(s) == done);
    assert(done[with_x.len() - 1] == x);
}

/// A line that begins with a letter is not trimmed at the start.
proof fn lemma_line_sets_path(arch: Seq<char>)
    ensures
        sets_backends_path(backends_path_line(arch)),
{
    reveal_strlit("GBM_BACKENDS_PATH");
    reveal_strlit("GBM_BACKENDS_PATH=/usr/lib/");
    reveal_strlit("#");
    let l = backends_path_line(arch);
    let head = "GBM_BACKENDS_PATH=/usr/lib/"@;
    assert forall|i: int| 0 <= i < head.len() implies l[i] == head[i] by {}
    assert(trim_start(l) == l);
    assert(!begins(l, "#"@)) by {
        assert(l[0] == 'G');
        assert("#"@[0] == '#');
        if begins(l, "#"@) {
            assert(l.take(1)[0] == l[0]);
        }
    }
    assert forall|i: int| 0 <= i < 17 implies l[i] != '=' by {}
    assert(l[17] == '=');
    lemma_first_index_unique(l, '=', 17);
    let key = l.take(17);
    assert(key =~= "GBM_BACKENDS_PATH"@);
    assert(trim_start(key) == key);
    assert(trim(key) == key) by {
        assert(!is_white(key.last()));
    }
}

/// Setting the search path once is enough: what was set is found again.
pub proof fn law_gbm_compat_is_idempotent(environment: Seq<char>, arch: Seq<char>)
    requires
        !arch.contains('\n'),
    ensures
        backends_path_set(lines(with_backends_path(environment, arch))),
{
    reveal_strlit("# Compatibility for target images with split Mesa and NVIDIA GBM backends\n");
    reveal_strlit("GBM_BACKENDS_PATH=/usr/lib/");
    reveal_strlit("-linux-gnu/GL/lib/gbm:/usr/lib/");
    reveal_strlit("-linux-gnu/GL/default/lib/gbm");
    let note = "# Compatibility for target images with split Mesa and NVIDIA GBM backends\n"@;
    let a = ended(environment) + note;
    let x = backends_path_line(arch);
    assert(a.last() == '\n');
    assert(!x.contains('\n')) by {
        if x.contains('\n') {
            let i = choose|i: int| 0 <= i < x.len() && x[i] == '\n';
            let p1 = "GBM_BACKENDS_PATH=/usr/lib/"@;
            let p2 = "-linux-gnu/GL/lib/gbm:/usr/lib/"@;
            let p3 = "-linux-gnu/GL/default/lib/gbm"@;
            let n1 = p1.len() as int;
            let n2 = n1 + arch.len();
            let n3 = n2 + p2.len();
            let n4 = n3 + arch.len();
            if i < n1 {
                assert(x[i] == p1[i]);
            } else if i < n2 {
                assert(arch[i - n1] == '\n');
            } else if i < n3 {
                assert(x[i] == p2[i - n2]);
            } else if i < n4 {
                assert(arch[i - n3] == '\n');
            } else {
                assert(x[i] == p3[i - n4]);
            }
        }
    }
    assert(x.last() == 'm');
    lemma_written_line(a, x);
    lemma_line_sets_path(arch);
    let ls = lines(with_backends_path(environment, arch));
    let i = choose|i: int| 0 <= i < ls.len() && ls[i] == x;
    assert(sets_backends_path(ls[i]));
}

/// What stands at a path.
#[derive(Debug, Clone, Copy, PartialEq, Eq, Structural)]
pub enum EntryKind {
    File,
    Symlink,
    Other,
}

/// A directory of NetworkManager's configuration.
#[derive(Debug, Clone, PartialEq, Eq)]
pub struct ConfigDir {
    pub path: String,
    /// What stands at `NetworkManager.conf`.
    pub main: Option<EntryKind>,
    /// What `conf.d` lists.
    pub drop_ins: Vec<(String, EntryKind)>,
}

/// What a [`ConfigDir`] holds.
#[verifier::ext_equal]
pub struct ConfigDirView {
    pub path: Seq<char>,
    pub main: Option<EntryKind>,
    pub drop_ins: Seq<(Seq<char>, EntryKind)>,
}

impl DeepView for EntryKind {
    type V = EntryKind;

    open spec fn deep_view(&self) -> EntryKind {
        *self
    }
}

impl DeepView for ConfigDir {
    type V = ConfigDirView;

    open spec fn deep_view(&self) -> ConfigDirView {
        ConfigDirView {
            path: self.path@,
            main: self.main,
            drop_ins: self.drop_ins.deep_view(),
        }
    }
}

/// The refusal of a symbolic link.
pub open spec fn link_refusal(path: Seq<char>) -> Seq<char> {
    "refusing to follow symlinked NetworkManager configuration "@ + path
}

/// The refusal of a symbolic link.
fn refuse_link(path: &str) -> (r: String)
    ensures
        r@ == link_refusal(path@),
{
    let mut m: String = "refusing to follow symlinked NetworkManager configuration ".to_owned();
    m.append(path);
    m
}

/// The main configuration file of the directory.
pub open spec fn main_path(dir: Seq<char>) -> Seq<char> {
    join_path(dir, "NetworkManager.conf"@)
}

/// The drop-in of that name.
pub open spec fn drop_in_path(dir: Seq<char>, name: Seq<char>) -> Seq<char> {
    join_path(join_path(dir, "conf.d"@), name)
}

/// The main configuration file, if it is one: a symbolic link is refused.
pub open spec fn main_config(dir: ConfigDirView) -> Result<Option<Seq<char>>, Seq<char>> {
    match dir.main {
        Some(EntryKind::File) => Ok(Some(main_path(dir.path))),
        Some(EntryKind::Symlink) => Err(link_refusal(main_path(dir.path))),
        _ => Ok(None),
    }
}

/// The names of the drop-ins that are files, or the refusal of the first that
/// is a symbolic link.
pub open spec fn drop_in_names(
    dir: Seq<char>,
    entries: Seq<(Seq<char>, EntryKind)>,
) -> Result<Seq<Seq<char>>, Seq<char>>
    decreases entries.len(),
{
    if entries.len() == 0 {
        Ok(Seq::empty())
    } else {
        match drop_in_names(dir, entries.drop_last()) {
            Err(m) => Err(m),
            Ok(names) => {
                let e = entries.last();
                if !is_conf_name(e.0) {
                    Ok(names)
                } else {
                    match e.1 {
                        EntryKind::File => Ok(names.push(e.0)),
                        EntryKind::Symlink => Err(link_refusal(drop_in_path(dir, e.0))),
                        EntryKind::Other => Ok(names),
                    }
                }
            },
        }
    }
}

/// The names of the drop-ins in order, or the refusal.
pub open spec fn drop_ins_of(dir: ConfigDirView) -> Result<Seq<Seq<char>>, Seq<char>> {
    match drop_in_names(dir.path, dir.drop_ins) {
        Ok(names) => Ok(sorted_texts(names)),
        Err(m) => Err(m),
    }
}

/// The paths of the drop-ins.
pub open spec fn drop_in_paths(dir: Seq<char>, names: Seq<Seq<char>>) -> Seq<Seq<char>> {
    names.map_values(|n: Seq<char>| drop_in_path(dir, n))
}

/// What a text or its error is.
pub open spec fn texts_result(r: Result<Vec<String>, String>) -> Result<Seq<Seq<char>>, Seq<char>> {
    match r {
        Ok(v) => Ok(v.deep_view()),
        Err(m) => Err(m@),
    }
}

/// The main configuration file of the directory, if it is a file.
pub fn networkmanager_main_config_in(dir: &ConfigDir) -> (r: Result<Option<String>, String>)
    ensures
        match main_config(dir.deep_view()) {
            Ok(p) => r is Ok && r->Ok_0.deep_view() == p,
            Err(m) => r is Err && r->Err_0@ == m,
        },
{
    let path: String = path_join(dir.path.as_str(), "NetworkManager.conf");
    match dir.main {
        Some(EntryKind::File) => Ok(Some(path)),
        Some(EntryKind::Symlink) => Err(refuse_link(path.as_str())),
        _ => Ok(None),
    }
}

/// The names of the drop-ins of the directory, in order. A symbolic link among
/// them is refused.
pub fn networkmanager_drop_in_files_in(dir: &ConfigDir) -> (r: Result<Vec<String>, String>)
    ensures
        texts_result(r) == drop_ins_of(dir.deep_view()),
{
    let ghost all = dir.drop_ins.deep_view();
    let mut names: Vec<String> = Vec::new();
    let mut i: usize = 0;
    assert(names.deep_view() =~= Seq::empty());
    assert(all.take(0) =~= Seq::empty());
    while i < dir.drop_ins.len()
        invariant
            all == dir.drop_ins.deep_view(),
            i <= dir.drop_ins@.len(),
            drop_in_names(dir.path@, all.take(i as int)) == Ok::<Seq<Seq<char>>, Seq<char>>(
                names.deep_view(),
            ),
        decreases dir.drop_ins@.len() - i,
    {
        let name: &str = dir.drop_ins[i].0.as_str();
        let kind: EntryKind = dir.drop_ins[i].1;
        proof {
            assert(all[i as int] == (name@, kind));
            assert(all.take(i + 1).drop_last() =~= all.take(i as int));
            assert(all.take(i + 1).last() == all[i as int]);
        }
        let ghost before = names.deep_view();
        if conf_name(name) {
            match kind {
                EntryKind::File => {
                    names.push(name.to_owned());
                    assert(names.deep_view() =~= before.push(name@));
                },
                EntryKind::Symlink => {
                    let confd: String = path_join(dir.path.as_str(), "conf.d");
                    let path: String = path_join(confd.as_str(), name);
                    proof {
                        lemma_refusal_stays(dir.path@, all, i + 1);
                    }
                    return Err(refuse_link(path.as_str()));
                },
                EntryKind::Other => {},
            }
        }
        i = i + 1;
    }
    assert(all.take(i as int) =~= all);
    Ok(sort_texts(names.as_slice()))
}

/// A refusal among the first entries is the refusal of all.
proof fn lemma_refusal_stays(dir: Seq<char>, entries: Seq<(Seq<char>, EntryKind)>, i: int)
    requires
        0 <= i <= entries.len(),
        drop_in_names(dir, entries.take(i)) is Err,
    ensures
        drop_in_names(dir, entries) == drop_in_names(dir, entries.take(i)),
    decreases entries.len(),
{
    if i == entries.len() {
        assert(entries.take(i) =~= entries);
    } else {
        assert(entries.drop_last().take(i) =~= entries.take(i));
        lemma_refusal_stays(dir, entries.drop_last(), i);
    }
}

/// Adds the paths of the drop-ins of those names.
fn add_drop_ins(files: &mut Vec<String>, dir: &str, names: &[String])
    ensures
        final(files).deep_view() == old(files).deep_view() + drop_in_paths(dir@, names.deep_view()),
{
    let ghost all = names.deep_view();
    let ghost start = files.deep_view();
    let confd: String = path_join(dir, "conf.d");
    let mut i: usize = 0;
    assert(files.deep_view() =~= start + drop_in_paths(dir@, all).take(0));
    while i < names.len()
        invariant
            all == names.deep_view(),
            confd@ == join_path(dir@, "conf.d"@),
            i <= names@.len(),
            files.deep_view() == start + drop_in_paths(dir@, all).take(i as int),
        decreases names@.len() - i,
    {
        let ghost before = files.deep_view();
        let p: String = path_join(confd.as_str(), names[i].as_str());
        files.push(p);
        proof {
            assert(all[i as int] == names@[i as int]@);
            assert(files.deep_view() =~= before.push(p@));
            assert(files.deep_view() =~= start + drop_in_paths(dir@, all).take(i + 1));
        }
        i = i + 1;
    }
    assert(drop_in_paths(dir@, all).take(i as int) =~= drop_in_paths(dir@, all));
}

/// The configuration files of a directory: the main one, then the drop-ins.
pub open spec fn config_files(dir: ConfigDirView) -> Result<Seq<Seq<char>>, Seq<char>> {
    match main_config(dir) {
        Err(m) => Err(m),
        Ok(main) => match drop_ins_of(dir) {
            Err(m) => Err(m),
            Ok(names) => Ok(
                (match main {
                    Some(p) => seq![p],
                    None => Seq::empty(),
                }) + drop_in_paths(dir.path, names),
            ),
        },
    }
}

/// The configuration files of a directory, in the order in which they are read.
pub fn networkmanager_config_files_in(dir: &ConfigDir) -> (r: Result<Vec<String>, String>)
    ensures
        texts_result(r) == config_files(dir.deep_view()),
{
    let mut files: Vec<String> = Vec::new();
    match networkmanager_main_config_in(dir) {
        Err(m) => {
            return Err(m);
        },
        Ok(Some(p)) => {
            files.push(p);
            assert(files.deep_view() =~= seq![p@]);
        },
        Ok(None) => {
            assert(files.deep_view() =~= Seq::empty());
        },
    }
    match networkmanager_drop_in_files_in(dir) {
        Err(m) => Err(m),
        Ok(names) => {
            add_drop_ins(&mut files, dir.path.as_str(), names.as_slice());
            Ok(files)
        },
    }
}

/// The names that none of the lists holds.
pub open spec fn unshadowed(
    names: Seq<Seq<char>>,
    a: Seq<Seq<char>>,
    b: Seq<Seq<char>>,
) -> Seq<Seq<char>>
    decreases names.len(),
{
    if names.len() == 0 {
        Seq::empty()
    } else if a.contains(names.last()) || b.contains(names.last()) {
        unshadowed(names.drop_last(), a, b)
    } else {
        unshadowed(names.drop_last(), a, b).push(names.last())
    }
}

/// The names that none of the lists holds.
fn not_shadowed(names: &[String], a: &[String], b: &[String]) -> (r: Vec<String>)
    ensures
        r.deep_view() == unshadowed(names.deep_view(), a.deep_view(), b.deep_view()),
{
    let ghost all = names.deep_view();
    let mut r: Vec<String> = Vec::new();
    let mut i: usize = 0;
    assert(r.deep_view() =~= unshadowed(all.take(0), a.deep_view(), b.deep_view()));
    while i < names.len()
        invariant
            all == names.deep_view(),
            i <= names@.len(),
            r.deep_view() == unshadowed(all.take(i as int), a.deep_view(), b.deep_view()),
        decreases names@.len() - i,
    {
        proof {
            assert(all[i as int] == names@[i as int]@);
            assert(all.take(i + 1).drop_last() =~= all.take(i as int));
            assert(all.take(i + 1).last() == all[i as int]);
        }
        let ghost before = r.deep_view();
        if !list_contains(a, names[i].as_str()) && !list_contains(b, names[i].as_str()) {
            r.push(names[i].clone());
            assert(r.deep_view() =~= before.push(all[i as int]));
        }
        i = i + 1;
    }
    assert(all.take(i as int) =~= all);
    r
}

/// A drop-in takes effect if and only if no nearer directory has one of its
/// name.
pub proof fn law_nearer_drop_ins_win(
    names: Seq<Seq<char>>,
    a: Seq<Seq<char>>,
    b: Seq<Seq<char>>,
    name: Seq<char>,
)
    ensures
        unshadowed(names, a, b).contains(name) <==> names.contains(name) && !a.contains(name)
            && !b.contains(name),
    decreases names.len(),
{
    if names.len() > 0 {
        let rest = names.drop_last();
        let kept = unshadowed(rest, a, b);
        law_nearer_drop_ins_win(rest, a, b, name);
        assert(names =~= rest.push(names.last()));
        if kept.contains(name) {
            let i = kept.index_of(name);
            assert(unshadowed(names, a, b)[i] == name);
        }
        if rest.contains(name) {
            let i = rest.index_of(name);
            assert(names[i] == name);
        }
        if unshadowed(names, a, b).contains(name) && !kept.contains(name) {
            let i = unshadowed(names, a, b).index_of(name);
            assert(i == kept.len());
            assert(names[names.len() - 1] == name);
        }
        if names.contains(name) && !rest.contains(name) {
            let i = names.index_of(name);
            assert(i == names.len() - 1);
            if !a.contains(name) && !b.contains(name) {
                assert(unshadowed(names, a, b)[kept.len() as int] == name);
            }
        }
    }
}

/// The configuration files of the target: the vendor's drop-ins, those of the
/// runtime, the main file, and those of `/etc`. A drop-in shadows one of the
/// same name of lower priority.
pub open spec fn target_files(
    vendor: ConfigDirView,
    runtime: ConfigDirView,
    etc: ConfigDirView,
) -> Result<Seq<Seq<char>>, Seq<char>> {
    match drop_ins_of(vendor) {
        Err(m) => Err(m),
        Ok(v) => match drop_ins_of(runtime) {
            Err(m) => Err(m),
            Ok(r) => match drop_ins_of(etc) {
                Err(m) => Err(m),
                Ok(e) => match main_config(etc) {
                    Err(m) => Err(m),
                    Ok(main) => Ok(
                        drop_in_paths(vendor.path, unshadowed(v, r, e)) + drop_in_paths(
                            runtime.path,
                            unshadowed(r, e, e),
                        ) + (match main {
                            Some(p) => seq![p],
                            None => Seq::empty(),
                        }) + drop_in_paths(etc.path, e),
                    ),
                },
            },
        },
    }
}

/// The configuration files of the target in the order in which NetworkManager
/// reads them.
pub fn target_networkmanager_config_files(
    vendor: &ConfigDir,
    runtime: &ConfigDir,
    etc: &ConfigDir,
) -> (r: Result<Vec<String>, String>)
    ensures
        texts_result(r) == target_files(
            vendor.deep_view(),
            runtime.deep_view(),
            etc.deep_view(),
        ),
{
    let v: Vec<String> = match networkmanager_drop_in_files_in(vendor) {
        Ok(v) => v,
        Err(m) => {
            return Err(m);
        },
    };
    let rt: Vec<String> = match networkmanager_drop_in_files_in(runtime) {
        Ok(v) => v,
        Err(m) => {
            return Err(m);
        },
    };
    let e: Vec<String> = match networkmanager_drop_in_files_in(etc) {
        Ok(v) => v,
        Err(m) => {
            return Err(m);
        },
    };
    let main: Option<String> = match networkmanager_main_config_in(etc) {
        Ok(p) => p,
        Err(m) => {
            return Err(m);
        },
    };
    let shown_vendor: Vec<String> = not_shadowed(v.as_slice(), rt.as_slice(), e.as_slice());
    let shown_runtime: Vec<String> = not_shadowed(rt.as_slice(), e.as_slice(), e.as_slice());
    let mut files: Vec<String> = Vec::new();
    assert(files.deep_view() =~= Seq::empty());
    add_drop_ins(&mut files, vendor.path.as_str(), shown_vendor.as_slice());
    add_drop_ins(&mut files, runtime.path.as_str(), shown_runtime.as_slice());
    let ghost lower_files = files.deep_view();
    match main {
        Some(p) => {
            files.push(p);
            assert(files.deep_view() =~= lower_files + seq![p@]);
        },
        None => {
            assert(files.deep_view() =~= lower_files + Seq::empty());
        },
    }
    add_drop_ins(&mut files, etc.path.as_str(), e.as_slice());
    assert(files.deep_view() =~= drop_in_paths(
        vendor.path@,
        unshadowed(v.deep_view(), rt.deep_view(), e.deep_view()),
    ) + drop_in_paths(
        runtime.path@,
        unshadowed(rt.deep_view(), e.deep_view(), e.deep_view()),
    ) + (match main.deep_view() {
        Some(p) => seq![p],
        None => Seq::empty(),
    }) + drop_in_paths(etc.path@, e.deep_view()));
    Ok(files)
}

/// The message for a text that is no configuration.
pub open spec fn invalid_config(m: Seq<char>) -> Seq<char> {
    "invalid NetworkManager configuration: "@ + m
}

/// The configuration that the text is, or why it is none.
fn parse_networkmanager_config(contents: &str) -> (r: Result<tini::Ini, String>)
    ensures
        match ini_document(contents@) {
            Ok(doc) => r is Ok && ini_sections(r->Ok_0) == doc && names_differ(
                ini_sections(r->Ok_0),
            ),
            Err(m) => r is Err && r->Err_0@ == invalid_config(m),
        },
{
    match parse_ini(contents) {
        Ok(ini) => Ok(ini),
        Err(e) => {
            let mut m: String = "invalid NetworkManager configuration: ".to_owned();
            m.append(e.as_str());
            Err(m)
        },
    }
}

/// The Wi-Fi backend that a document selects.
pub open spec fn backend_in(doc: Sections) -> Option<Seq<char>> {
    lookup(doc, "device"@, "wifi.backend"@)
}

/// The Wi-Fi backend that the configuration selects, if it does.
pub fn networkmanager_config_backend(contents: &str) -> (r: Result<Option<String>, String>)
    ensures
        match ini_document(contents@) {
            Ok(doc) => r is Ok && r->Ok_0.deep_view() == backend_in(doc),
            Err(m) => r is Err && r->Err_0@ == invalid_config(m),
        },
{
    match parse_networkmanager_config(contents) {
        Ok(ini) => Ok(ini_get(&ini, "device", "wifi.backend")),
        Err(m) => Err(m),
    }
}

/// Whether the backend is iwd.
pub open spec fn is_iwd(backend: Option<Seq<char>>) -> bool {
    backend is Some && same_ignoring_case(backend->0, "iwd"@)
}

/// Whether the backend is iwd, with case ignored.
pub fn selects_iwd(backend: Option<&str>) -> (r: bool)
    ensures
        r == is_iwd(
            match backend {
                Some(b) => Some(b@),
                None => None,
            },
        ),
{
    match backend {
        Some(b) => same_ignore_case(b, "iwd"),
        None => false,
    }
}

/// Why a file could not be read as configuration.
pub open spec fn parse_failure(path: Seq<char>, m: Seq<char>) -> Seq<char> {
    "failed to parse "@ + path + ": "@ + invalid_config(m)
}

/// Why a file could not be read as configuration.
fn explain_failure(path: &str, m: &str) -> (r: String)
    ensures
        r@ == "failed to parse "@ + path@ + ": "@ + m@,
{
    let mut s: String = "failed to parse ".to_owned();
    s.append(path);
    s.append(": ");
    s.append(m);
    s
}

/// The backend that the last of the files to select one selects. Each file is
/// given with its path.
pub open spec fn last_backend(configs: Seq<(Seq<char>, Seq<char>)>) -> Result<
    Option<Seq<char>>,
    Seq<char>,
>
    decreases configs.len(),
{
    if configs.len() == 0 {
        Ok(None)
    } else {
        match last_backend(configs.drop_last()) {
            Err(m) => Err(m),
            Ok(b) => match ini_document(configs.last().1) {
                Err(m) => Err(parse_failure(configs.last().0, m)),
                Ok(doc) => Ok(
                    match backend_in(doc) {
                        Some(v) => Some(v),
                        None => b,
                    },
                ),
            },
        }
    }
}

/// A failure among the first files is the failure of all.
proof fn lemma_failure_stays(configs: Seq<(Seq<char>, Seq<char>)>, i: int)
    requires
        0 <= i <= configs.len(),
        last_backend(configs.take(i)) is Err,
    ensures
        last_backend(configs) == last_backend(configs.take(i)),
    decreases configs.len(),
{
    if i == configs.len() {
        assert(configs.take(i) =~= configs);
    } else {
        assert(configs.drop_last().take(i) =~= configs.take(i));
        lemma_failure_stays(configs.drop_last(), i);
    }
}

/// Whether the target selects iwd, from its configuration files in the order in
/// which they are read, each with its path.
pub fn target_selects_iwd_backend(configs: &[(String, String)]) -> (r: Result<bool, String>)
    ensures
        match last_backend(configs.deep_view()) {
            Ok(b) => r is Ok && r->Ok_0 == is_iwd(b),
            Err(m) => r is Err && r->Err_0@ == m,
        },
{
    let ghost all = configs.deep_view();
    let mut backend: Option<String> = None;
    let mut i: usize = 0;
    assert(all.take(0) =~= Seq::empty());
    while i < configs.len()
        invariant
            all == configs.deep_view(),
            i <= configs@.len(),
            last_backend(all.take(i as int)) == Ok::<Option<Seq<char>>, Seq<char>>(
                backend.deep_view(),
            ),
        decreases configs@.len() - i,
    {
        proof {
            assert(all[i as int] == (configs@[i as int].0@, configs@[i as int].1@));
            assert(all.take(i + 1).drop_last() =~= all.take(i as int));
            assert(all.take(i + 1).last() == all[i as int]);
        }
        match networkmanager_config_backend(configs[i].1.as_str()) {
            Ok(Some(b)) => {
                backend = Some(b);
            },
            Ok(None) => {},
            Err(m) => {
                proof {
                    lemma_failure_stays(all, i + 1);
                }
                return Err(explain_failure(configs[i].0.as_str(), m.as_str()));
            },
        }
        i = i + 1;
    }
    assert(all.take(i as int) =~= all);
    match &backend {
        Some(b) => Ok(same_ignore_case(b.as_str(), "iwd")),
        None => Ok(false),
    }
}

/// The keys of the settings that only iwd has.
pub open spec fn iwd_keys(items: Items) -> Seq<Seq<char>>
    decreases items.len(),
{
    if items.len() == 0 {
        Seq::empty()
    } else if begins(items.last().0, "wifi.iwd."@) {
        iwd_keys(items.drop_last()).push(items.last().0)
    } else {
        iwd_keys(items.drop_last())
    }
}

/// The keys to take out of the device section: the backend where it is iwd, and
/// the settings that only iwd has.
pub open spec fn keys_to_erase(backend: Option<Seq<char>>, items: Items) -> Seq<Seq<char>> {
    (if is_iwd(backend) {
        seq!["wifi.backend"@]
    } else {
        Seq::empty()
    }) + iwd_keys(items)
}

/// The keys to take out of the device section, from the backend that it selects
/// and its items.
pub fn iwd_settings(backend: Option<&str>, items: &[(String, String)]) -> (r: Vec<String>)
    ensures
        r.deep_view() == keys_to_erase(
            match backend {
                Some(b) => Some(b@),
                None => None,
            },
            items.deep_view(),
        ),
{
    let mut r: Vec<String> = Vec::new();
    if selects_iwd(backend) {
        r.push("wifi.backend".to_owned());
    }
    let ghost start = r.deep_view();
    assert(start =~= if is_iwd(
        match backend {
            Some(b) => Some(b@),
            None => None,
        },
    ) {
        seq!["wifi.backend"@]
    } else {
        Seq::empty()
    });
    let ghost all = items.deep_view();
    let mut i: usize = 0;
    assert(all.take(0) =~= Seq::empty());
    assert(r.deep_view() =~= start + iwd_keys(all.take(0)));
    while i < items.len()
        invariant
            all == items.deep_view(),
            i <= items@.len(),
            r.deep_view() == start + iwd_keys(all.take(i as int)),
        decreases items@.len() - i,
    {
        proof {
            assert(all[i as int] == (items@[i as int].0@, items@[i as int].1@));
            assert(all.take(i + 1).drop_last() =~= all.take(i as int));
            assert(all.take(i + 1).last() == all[i as int]);
        }
        let ghost before = r.deep_view();
        if starts_with(items[i].0.as_str(), "wifi.iwd.") {
            r.push(items[i].0.clone());
            assert(r.deep_view() =~= before.push(all[i as int].0));
            assert(r.deep_view() =~= start + iwd_keys(all.take(i + 1)));
        }
        i = i + 1;
    }
    assert(all.take(i as int) =~= all);
    r
}

/// The keys that are taken out of a document.
pub open spec fn erased_keys(doc: Sections) -> Seq<Seq<char>> {
    keys_to_erase(backend_in(doc), section_items(doc, "device"@))
}

/// The document without the settings of iwd.
pub open spec fn stripped(doc: Sections) -> Sections {
    erased_all(doc, "device"@, erased_keys(doc))
}

/// Whether the document has a setting.
pub open spec fn has_settings(doc: Sections) -> bool {
    exists|i: int| 0 <= i < doc.len() && (#[trigger] doc[i]).1.len() > 0
}

/// The text that the configuration is replaced by, if one is left, and the
/// number of settings that were taken out.
pub open spec fn strip_result(doc: Sections) -> (Option<Seq<char>>, nat) {
    if erased_keys(doc).len() == 0 || !has_settings(stripped(doc)) {
        (None, erased_keys(doc).len())
    } else {
        (Some(rendered(stripped(doc))), erased_keys(doc).len())
    }
}

/// Whether the document has a setting.
fn any_setting(sections: &[(String, Vec<(String, String)>)]) -> (r: bool)
    ensures
        r == has_settings(sections.deep_view()),
{
    let ghost all = sections.deep_view();
    let mut i: usize = 0;
    while i < sections.len()
        invariant
            all == sections.deep_view(),
            i <= sections@.len(),
            forall|k: int| 0 <= k < i ==> (#[trigger] all[k]).1.len() == 0,
        decreases sections@.len() - i,
    {
        assert(all[i as int].1.len() == sections@[i as int].1@.len());
        if sections[i].1.len() > 0 {
            return true;
        }
        i = i + 1;
    }
    false
}

/// The configuration without the settings of iwd: the text that replaces it, or
/// nothing where no setting is left or none was taken out, and the number of
/// settings that were taken out.
pub fn strip_iwd_backend_settings(contents: &str) -> (r: Result<(Option<String>, usize), String>)
    ensures
        match ini_document(contents@) {
            Ok(doc) => r is Ok && (r->Ok_0.0.deep_view(), r->Ok_0.1 as nat) == strip_result(doc),
            Err(m) => r is Err && r->Err_0@ == invalid_config(m),
        },
{
    let mut ini: tini::Ini = match parse_networkmanager_config(contents) {
        Ok(ini) => ini,
        Err(m) => {
            return Err(m);
        },
    };
    let ghost doc = ini_sections(ini);
    let backend: Option<String> = ini_get(&ini, "device", "wifi.backend");
    let backend_text: Option<&str> = match &backend {
        Some(b) => Some(b.as_str()),
        None => None,
    };
    let items: Vec<(String, String)> = ini_section(&ini, "device");
    let keys: Vec<String> = iwd_settings(backend_text, items.as_slice());
    let ghost all = keys.deep_view();
    assert(all == erased_keys(doc));
    if keys.len() == 0 {
        return Ok((None, 0));
    }
    let mut i: usize = 0;
    assert(all.take(0) =~= Seq::empty());
    while i < keys.len()
        invariant
            all == keys.deep_view(),
            i <= keys@.len(),
            ini_sections(ini) == erased_all(doc, "device"@, all.take(i as int)),
        decreases keys@.len() - i,
    {
        proof {
            assert(all[i as int] == keys@[i as int]@);
            assert(all.take(i + 1).drop_last() =~= all.take(i as int));
            assert(all.take(i + 1).last() == all[i as int]);
        }
        ini = ini_erase(ini_at(ini, "device"), keys[i].as_str());
        i = i + 1;
    }
    assert(all.take(i as int) =~= all);
    let left: Vec<(String, Vec<(String, String)>)> = ini_all(&ini);
    if any_setting(left.as_slice()) {
        Ok((Some(ini_text(&ini)), keys.len()))
    } else {
        Ok((None, keys.len()))
    }
}

/// Every key of iwd's settings is among the keys taken out, and no other.
proof fn lemma_iwd_keys(items: Items, k: Seq<char>)
    ensures
        iwd_keys(items).contains(k) <==> begins(k, "wifi.iwd."@) && exists|i: int|
            0 <= i < items.len() && (#[trigger] items[i]).0 == k,
    decreases items.len(),
{
    if items.len() > 0 {
        let d = items.drop_last();
        lemma_iwd_keys(d, k);
        let ks = iwd_keys(items);
        let kd = iwd_keys(d);
        if ks.contains(k) {
            let j = choose|j: int| 0 <= j < ks.len() && ks[j] == k;
            if j < kd.len() {
                assert(kd[j] == k);
                let i = choose|i: int| 0 <= i < d.len() && (#[trigger] d[i]).0 == k;
                assert(items[i].0 == k);
            } else {
                assert(items[items.len() - 1].0 == k);
            }
        }
        if begins(k, "wifi.iwd."@) && exists|i: int|
            0 <= i < items.len() && (#[trigger] items[i]).0 == k {
            let i = choose|i: int| 0 <= i < items.len() && (#[trigger] items[i]).0 == k;
            if i < d.len() {
                assert(d[i].0 == k);
                let j = choose|j: int| 0 <= j < kd.len() && kd[j] == k;
                assert(ks[j] == k);
            } else {
                assert(ks[ks.len() - 1] == k);
            }
        }
    }
}

/// Only iwd's settings of the device section are taken out: every other value
/// stays as it was, and no setting of iwd is left.
pub proof fn law_strip_removes_only_iwd_settings(doc: Sections, section: Seq<char>, key: Seq<char>)
    requires
        names_differ(doc),
    ensures
        section != "device"@ ==> lookup(stripped(doc), section, key) == lookup(doc, section, key),
        !begins(key, "wifi.iwd."@) && key != "wifi.backend"@ ==> lookup(
            stripped(doc),
            section,
            key,
        ) == lookup(doc, section, key),
        begins(key, "wifi.iwd."@) ==> lookup(stripped(doc), "device"@, key) is None,
        backend_in(stripped(doc)) == (if is_iwd(backend_in(doc)) {
            None
        } else {
            backend_in(doc)
        }),
{
    let items = section_items(doc, "device"@);
    let keys = erased_keys(doc);
    lemma_erased_all(doc, "device"@, keys, section, key);
    lemma_erased_all(doc, "device"@, keys, "device"@, key);
    lemma_erased_all(doc, "device"@, keys, "device"@, "wifi.backend"@);
    lemma_iwd_keys(items, key);
    lemma_iwd_keys(items, "wifi.backend"@);
    assert(!begins("wifi.backend"@, "wifi.iwd."@)) by {
        reveal_strlit("wifi.backend");
        reveal_strlit("wifi.iwd.");
        if begins("wifi.backend"@, "wifi.iwd."@) {
            assert("wifi.backend"@.take(9)[5] == "wifi.iwd."@[5]);
        }
    }
    let own = if is_iwd(backend_in(doc)) {
        seq!["wifi.backend"@]
    } else {
        Seq::empty()
    };
    let rest = iwd_keys(items);
    assert(keys == own + rest);
    assert(keys.contains(key) <==> own.contains(key) || rest.contains(key)) by {
        lemma_either(own, rest, key);
    }
    lemma_either(own, rest, "wifi.backend"@);
    if is_iwd(backend_in(doc)) {
        assert(own[0] == "wifi.backend"@);
        assert(own.contains("wifi.backend"@));
    }
    if own.contains(key) {
        assert(key == "wifi.backend"@);
    }
    if begins(key, "wifi.iwd."@) && lookup(doc, "device"@, key) is Some {
        let i = crate::ini::key_index(items, key);
        crate::ini::lemma_key_index(items, key);
        assert(items[i].0 == key);
        assert(rest.contains(key));
    }
}

/// What a list of two parts holds is in one of them.
proof fn lemma_either(a: Seq<Seq<char>>, b: Seq<Seq<char>>, x: Seq<char>)
    ensures
        (a + b).contains(x) <==> a.contains(x) || b.contains(x),
{
    let c = a + b;
    if c.contains(x) {
        let i = choose|i: int| 0 <= i < c.len() && c[i] == x;
        if i < a.len() {
            assert(a[i] == x);
        } else {
            assert(b[i - a.len()] == x);
        }
    }
    if a.contains(x) {
        let i = choose|i: int| 0 <= i < a.len() && a[i] == x;
        assert(c[i] == x);
    }
    if b.contains(x) {
        let i = choose|i: int| 0 <= i < b.len() && b[i] == x;
        assert(c[a.len() + i] == x);
    }
}

/// What the Wi-Fi backend's configuration was relieved of.
#[derive(Debug, Clone, Copy, PartialEq, Eq, Structural)]
pub struct NetworkManagerBackendCompat {
    pub removed_iwd_settings: usize,
    pub removed_wpa_supplicant_mask: bool,
}

impl Default for NetworkManagerBackendCompat {
    fn default() -> (r: Self)
        ensures
            r.removed_iwd_settings == 0,
            !r.removed_wpa_supplicant_mask,
    {
        NetworkManagerBackendCompat { removed_iwd_settings: 0, removed_wpa_supplicant_mask: false }
    }
}

/// Where a unit of `wpa_supplicant` may stand, below the target's root.
pub open spec fn wpa_supplicant_units() -> Seq<Seq<char>> {
    seq![
        "etc/systemd/system/wpa_supplicant.service"@,
        "usr/local/lib/systemd/system/wpa_supplicant.service"@,
        "usr/lib/systemd/system/wpa_supplicant.service"@,
        "lib/systemd/system/wpa_supplicant.service"@,
    ]
}

/// Whether the target has a unit of `wpa_supplicant`. `files` are the files of
/// the target, below its root.
pub fn target_has_wpa_supplicant_service(files: &[String]) -> (r: bool)
    ensures
        r == exists|i: int|
            0 <= i < wpa_supplicant_units().len() && files.deep_view().contains(
                #[trigger] wpa_supplicant_units()[i],
            ),
{
    let ghost units = wpa_supplicant_units();
    if list_contains(files, "etc/systemd/system/wpa_supplicant.service") {
        assert(files.deep_view().contains(units[0]));
        return true;
    }
    if list_contains(files, "usr/local/lib/systemd/system/wpa_supplicant.service") {
        assert(files.deep_view().contains(units[1]));
        return true;
    }
    if list_contains(files, "usr/lib/systemd/system/wpa_supplicant.service") {
        assert(files.deep_view().contains(units[2]));
        return true;
    }
    if list_contains(files, "lib/systemd/system/wpa_supplicant.service") {
        assert(files.deep_view().contains(units[3]));
        return true;
    }
    false
}

/// What stands at the source's unit of `wpa_supplicant`.
#[derive(Debug, Clone, PartialEq, Eq)]
pub enum UnitState {
    Missing,
    /// A symbolic link to the path.
    LinkTo(String),
    /// Anything else.
    Present,
}

/// Whether the unit is masked.
pub open spec fn is_masked(u: UnitState) -> bool {
    u is LinkTo && u->LinkTo_0@ == "/dev/null"@
}

/// Whether the unit is a mask and is to be removed: a link to `/dev/null`, and
/// nothing else that the user may have put there.
pub fn remove_wpa_supplicant_mask(unit: &UnitState) -> (r: bool)
    ensures
        r == is_masked(*unit),
{
    match unit {
        UnitState::LinkTo(target) => same(target.as_str(), "/dev/null"),
        _ => false,
    }
}

/// A change to a configuration file: its new text, or its removal.
#[derive(Debug, Clone, PartialEq, Eq)]
pub struct ConfigEdit {
    pub path: String,
    pub replacement: Option<String>,
}

/// What a [`ConfigEdit`] holds.
#[verifier::ext_equal]
pub struct ConfigEditView {
    pub path: Seq<char>,
    pub replacement: Option<Seq<char>>,
}

impl DeepView for ConfigEdit {
    type V = ConfigEditView;

    open spec fn deep_view(&self) -> ConfigEditView {
        ConfigEditView { path: self.path@, replacement: self.replacement.deep_view() }
    }
}

/// The changes that are due before a file that could not be read, and why it
/// could not be.
#[derive(Debug, Clone, PartialEq, Eq)]
pub struct EditFailure {
    pub due: Vec<ConfigEdit>,
    pub message: String,
}

/// The changes to the source's files and the number of settings that they take
/// out, or the changes to the files before one that could not be read, and why.
pub open spec fn edits_for(configs: Seq<(Seq<char>, Seq<char>)>) -> Result<
    (Seq<ConfigEditView>, nat),
    (Seq<ConfigEditView>, Seq<char>),
>
    decreases configs.len(),
{
    if configs.len() == 0 {
        Ok((Seq::empty(), 0))
    } else {
        match edits_for(configs.drop_last()) {
            Err(failure) => Err(failure),
            Ok(done) => match ini_document(configs.last().1) {
                Err(m) => Err((done.0, parse_failure(configs.last().0, m))),
                Ok(doc) => {
                    let (replacement, removed) = strip_result(doc);
                    if removed == 0 {
                        Ok(done)
                    } else {
                        Ok(
                            (
                                done.0.push(
                                    ConfigEditView { path: configs.last().0, replacement },
                                ),
                                done.1 + removed,
                            ),
                        )
                    }
                },
            },
        }
    }
}

/// A failure among the first files is the failure of all.
proof fn lemma_edit_failure_stays(configs: Seq<(Seq<char>, Seq<char>)>, i: int)
    requires
        0 <= i <= configs.len(),
        edits_for(configs.take(i)) is Err,
    ensures
        edits_for(configs) == edits_for(configs.take(i)),
    decreases configs.len(),
{
    if i == configs.len() {
        assert(configs.take(i) =~= configs);
    } else {
        assert(configs.drop_last().take(i) =~= configs.take(i));
        lemma_edit_failure_stays(configs.drop_last(), i);
    }
}

/// `n`, or the greatest number where it is greater.
pub open spec fn at_most_max(n: nat) -> int {
    if n > usize::MAX {
        usize::MAX as int
    } else {
        n as int
    }
}

/// The changes that make the source's NetworkManager configuration fit the
/// target.
///
/// A target that selects iwd itself keeps everything. Otherwise iwd's settings
/// leave the source's files, a file without settings is removed, and a mask of
/// `wpa_supplicant` is lifted where the target has that service. The files come
/// with their paths, in the order in which they are read. One that cannot be
/// read stops the changes to those behind it.
pub fn apply_target_networkmanager_backend_compat(
    target_configs: &[(String, String)],
    source_configs: &[(String, String)],
    target_has_wpa_supplicant: bool,
    source_unit: &UnitState,
) -> (r: Result<(Vec<ConfigEdit>, NetworkManagerBackendCompat), EditFailure>)
    ensures
        match last_backend(target_configs.deep_view()) {
            Err(m) => r matches Err(failure) && failure.due@.len() == 0 && failure.message@ == m,
            Ok(b) => if is_iwd(b) {
                r is Ok && r->Ok_0.0@.len() == 0 && r->Ok_0.1 == (NetworkManagerBackendCompat {
                    removed_iwd_settings: 0,
                    removed_wpa_supplicant_mask: false,
                })
            } else {
                match edits_for(source_configs.deep_view()) {
                    Err((due, m)) => r matches Err(failure) && failure.due.deep_view() == due
                        && failure.message@ == m,
                    Ok(edits) => r is Ok && r->Ok_0.0.deep_view() == edits.0
                        && r->Ok_0.1.removed_iwd_settings == at_most_max(edits.1)
                        && r->Ok_0.1.removed_wpa_supplicant_mask == (target_has_wpa_supplicant
                        && is_masked(*source_unit)),
                }
            },
        },
{
    match target_selects_iwd_backend(target_configs) {
        Err(message) => {
            return Err(EditFailure { due: Vec::new(), message });
        },
        Ok(true) => {
            return Ok((Vec::new(), NetworkManagerBackendCompat::default()));
        },
        Ok(false) => {},
    }
    let ghost all = source_configs.deep_view();
    let mut edits: Vec<ConfigEdit> = Vec::new();
    let mut removed: usize = 0;
    let ghost mut exact: nat = 0;
    let mut i: usize = 0;
    assert(all.take(0) =~= Seq::empty());
    assert(edits.deep_view() =~= Seq::empty());
    while i < source_configs.len()
        invariant
            last_backend(target_configs.deep_view()) is Ok,
            !is_iwd(last_backend(target_configs.deep_view())->Ok_0),
            all == source_configs.deep_view(),
            i <= source_configs@.len(),
            removed == at_most_max(exact),
            edits_for(all.take(i as int)) == Ok::<
                (Seq<ConfigEditView>, nat),
                (Seq<ConfigEditView>, Seq<char>),
            >((edits.deep_view(), exact)),
        decreases source_configs@.len() - i,
    {
        proof {
            assert(all[i as int] == (source_configs@[i as int].0@, source_configs@[i as int].1@));
            assert(all.take(i + 1).drop_last() =~= all.take(i as int));
            assert(all.take(i + 1).last() == all[i as int]);
        }
        match strip_iwd_backend_settings(source_configs[i].1.as_str()) {
            Err(m) => {
                proof {
                    lemma_edit_failure_stays(all, i + 1);
                }
                let message: String = explain_failure(source_configs[i].0.as_str(), m.as_str());
                return Err(EditFailure { due: edits, message });
            },
            Ok((replacement, n)) => {
                if n > 0 {
                    let ghost before = edits.deep_view();
                    let edit: ConfigEdit = ConfigEdit {
                        path: source_configs[i].0.clone(),
                        replacement,
                    };
                    edits.push(edit);
                    assert(edits.deep_view() =~= before.push(edit.deep_view()));
                    removed = if removed > usize::MAX - n {
                        usize::MAX
                    } else {
                        removed + n
                    };
                    proof {
                        exact = exact + n as nat;
                    }
                }
            },
        }
        i = i + 1;
    }
    assert(all.take(i as int) =~= all);
    let removed_wpa_supplicant_mask: bool = target_has_wpa_supplicant && remove_wpa_supplicant_mask(
        source_unit,
    );
    Ok(
        (
            edits,
            NetworkManagerBackendCompat {
                removed_iwd_settings: removed,
                removed_wpa_supplicant_mask,
            },
        ),
    )
}

} // verus!
