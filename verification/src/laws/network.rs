//! Laws of what a target's graphics and network need of the host's
//! configuration.

use vstd::prelude::*;

use crate::ini::{
    document_lines, ini_document, item_lines, key_index, lookup, names_differ, section_index,
    Items, Sections,
};
use crate::migration::target_compat::{
    at_most_max, backend_in, backends_path_set, config_files, drop_in_names, drop_in_path,
    drop_ins_of, edits_for, is_iwd, is_masked, is_split, iwd_keys, last_backend, main_config,
    sets_backends_path, strip_result, stripped, target_files, unshadowed, with_backends_path,
    ConfigDirView, ConfigEditView, EntryKind, GbmLayout, UnitState,
};
use crate::text::paths::join_path;
use crate::text::pieces::{lemma_trimmed_is_kept, trim_start};
use crate::text::search::{
    begins, finishes, holds, lemma_first_index, lemma_first_index_unique, lower,
};

verus! {

/// A line sets the search path whatever its value is. One that is commented out
/// does not, nor one without an equals sign.
pub proof fn law_line_that_sets_the_path(value: Seq<char>, line: Seq<char>)
    ensures
        sets_backends_path("GBM_BACKENDS_PATH="@ + value),
        begins(trim_start(line), "#"@) ==> !sets_backends_path(line),
        !trim_start(line).contains('=') ==> !sets_backends_path(line),
{
    reveal_strlit("GBM_BACKENDS_PATH=");
    reveal_strlit("GBM_BACKENDS_PATH");
    reveal_strlit("#");
    let key = "GBM_BACKENDS_PATH"@;
    let l = "GBM_BACKENDS_PATH="@ + value;
    assert(l[0] == 'G');
    assert(trim_start(l) == l);
    if begins(l, "#"@) {
        assert(l.take(1)[0] == "#"@[0]);
    }
    let n = key.len() as int;
    assert(n == 17);
    assert(l[n] == '=');
    assert forall|i: int| 0 <= i < n implies l[i] != '=' by {
        assert(l[i] == key[i]);
    }
    lemma_first_index_unique(l, '=', n);
    assert(l.take(n) =~= key);
    lemma_trimmed_is_kept(key);
    let t = trim_start(line);
    lemma_first_index(t, '=');
    if !t.contains('=') && crate::text::search::first_index(t, '=') < t.len() {
        assert(t.contains(t[crate::text::search::first_index(t, '=')]));
    }
}

/// The search path is set where a line sets it.
pub proof fn law_environment_that_sets_the_path(ls: Seq<Seq<char>>, i: int)
    ensures
        0 <= i < ls.len() && sets_backends_path(ls[i]) ==> backends_path_set(ls),
        (forall|k: int| 0 <= k < ls.len() ==> !sets_backends_path(#[trigger] ls[k]))
            ==> !backends_path_set(ls),
{
}

/// The environment keeps what it held, and the path that it gets names the active
/// backends before Mesa's own.
pub proof fn law_environment_with_the_path(environment: Seq<char>, arch: Seq<char>)
    ensures
        begins(with_backends_path(environment, arch), environment),
        finishes(
            with_backends_path(environment, arch),
            "GBM_BACKENDS_PATH=/usr/lib/"@ + arch + "-linux-gnu/GL/lib/gbm:/usr/lib/"@ + arch
                + "-linux-gnu/GL/default/lib/gbm"@ + "\n"@,
        ),
{
    let e = with_backends_path(environment, arch);
    assert(e.take(environment.len() as int) =~= environment);
    let line = "GBM_BACKENDS_PATH=/usr/lib/"@ + arch + "-linux-gnu/GL/lib/gbm:/usr/lib/"@ + arch
        + "-linux-gnu/GL/default/lib/gbm"@ + "\n"@;
    let head = crate::migration::target_compat::ended(environment)
        + "# Compatibility for target images with split Mesa and NVIDIA GBM backends\n"@;
    assert(e =~= head + line);
    assert(e.skip(head.len() as int) =~= line);
}

/// The layout is split where the active path is there without Mesa's backend,
/// and the default path has it.
pub proof fn law_split_layout(l: GbmLayout)
    ensures
        is_split(l) <==> l.active_is_dir && !l.active_has_mesa && l.default_has_mesa,
{
}

/// Whether the entry has the name of a configuration file.
pub open spec fn is_conf(e: (Seq<char>, EntryKind)) -> bool {
    finishes(e.0, ".conf"@) && e.0.len() > 5
}

/// The drop-ins are the files named so, and they are refused exactly where one
/// named so is a symbolic link.
pub proof fn law_drop_ins(dir: Seq<char>, entries: Seq<(Seq<char>, EntryKind)>)
    ensures
        drop_in_names(dir, entries) is Err <==> exists|i: int|
            0 <= i < entries.len() && is_conf(#[trigger] entries[i]) && entries[i].1 is Symlink,
        drop_in_names(dir, entries) is Ok ==> drop_in_names(dir, entries)->Ok_0 == entries.filter(
            |e: (Seq<char>, EntryKind)| is_conf(e) && e.1 is File,
        ).map_values(|e: (Seq<char>, EntryKind)| e.0),
    decreases entries.len(),
{
    reveal(Seq::filter);
    let p = |e: (Seq<char>, EntryKind)| is_conf(e) && e.1 is File;
    let f = |e: (Seq<char>, EntryKind)| e.0;
    if entries.len() > 0 {
        let d = entries.drop_last();
        let n = entries.len() - 1;
        law_drop_ins(dir, d);
        let e = entries.last();
        assert(entries[n] == e);
        assert forall|i: int| 0 <= i < n implies #[trigger] entries[i] == d[i] by {}
        if drop_in_names(dir, d) is Err {
            let i = choose|i: int|
                0 <= i < d.len() && is_conf(#[trigger] d[i]) && d[i].1 is Symlink;
            assert(entries[i] == d[i]);
        } else {
            assert forall|i: int| 0 <= i < n implies !(is_conf(#[trigger] entries[i])
                && entries[i].1 is Symlink) by {
                assert(entries[i] == d[i]);
            }
            assert(d.filter(p).push(e).map_values(f) =~= d.filter(p).map_values(f).push(f(e)));
        }
    } else {
        assert(entries.filter(p).map_values(f) =~= Seq::<Seq<char>>::empty());
    }
}

/// The main file counts where it is a file, and is refused where it is a symbolic
/// link.
pub proof fn law_main_file(dir: ConfigDirView)
    ensures
        main_config(dir) is Err <==> dir.main is Some && dir.main->0 is Symlink,
        main_config(dir) is Ok ==> main_config(dir)->Ok_0 == (if dir.main is Some && dir.main->0
            is File {
            Some(join_path(dir.path, "NetworkManager.conf"@))
        } else {
            None
        }),
{
}

proof fn lemma_drop_in(dir: ConfigDirView, i: int)
    requires
        drop_in_names(dir.path, dir.drop_ins) is Ok,
        0 <= i < dir.drop_ins.len(),
        is_conf(dir.drop_ins[i]),
        dir.drop_ins[i].1 is File,
    ensures
        drop_ins_of(dir)->Ok_0.contains(dir.drop_ins[i].0),
{
    let entries = dir.drop_ins;
    let p = |e: (Seq<char>, EntryKind)| is_conf(e) && e.1 is File;
    let f = |e: (Seq<char>, EntryKind)| e.0;
    law_drop_ins(dir.path, entries);
    entries.lemma_filter_contains(p, i);
    let kept = entries.filter(p);
    let k = choose|k: int| 0 <= k < kept.len() && kept[k] == entries[i];
    let names = kept.map_values(f);
    assert(names[k] == entries[i].0);
    crate::text::order::law_sorting_keeps_every_text(names);
    let sorted = crate::text::order::sorted_texts(names);
    let name = entries[i].0;
    names.to_multiset_ensures();
    sorted.to_multiset_ensures();
    assert(names.contains(name));
    assert(names.to_multiset().count(name) > 0);
    assert(sorted.to_multiset().count(name) > 0);
    assert(sorted.contains(name));
}

/// Of the files of a directory none is left out: the main one comes first, and
/// every drop-in behind it.
pub proof fn law_no_file_is_left_out(dir: ConfigDirView, i: int)
    requires
        config_files(dir) is Ok,
    ensures
        dir.main is Some && dir.main->0 is File ==> config_files(dir)->Ok_0[0] == join_path(
            dir.path,
            "NetworkManager.conf"@,
        ),
        0 <= i < dir.drop_ins.len() && is_conf(dir.drop_ins[i]) && dir.drop_ins[i].1 is File
            ==> config_files(dir)->Ok_0.contains(
            join_path(join_path(dir.path, "conf.d"@), dir.drop_ins[i].0),
        ),
{
    if 0 <= i < dir.drop_ins.len() && is_conf(dir.drop_ins[i]) && dir.drop_ins[i].1 is File {
        lemma_drop_in(dir, i);
        let names = drop_ins_of(dir)->Ok_0;
        let k = choose|k: int| 0 <= k < names.len() && names[k] == dir.drop_ins[i].0;
        let files = config_files(dir)->Ok_0;
        let n = files.len() - names.len();
        assert(files[n + k] == drop_in_path(dir.path, names[k]));
    }
}

/// The names that are left are those that neither list holds, in their order.
pub proof fn law_shadowed_names(names: Seq<Seq<char>>, a: Seq<Seq<char>>, b: Seq<Seq<char>>)
    ensures
        unshadowed(names, a, b) == names.filter(
            |n: Seq<char>| !a.contains(n) && !b.contains(n),
        ),
    decreases names.len(),
{
    reveal(Seq::filter);
    if names.len() > 0 {
        law_shadowed_names(names.drop_last(), a, b);
    }
}

/// So it is where there is only one list.
pub proof fn law_names_shadowed_by_one_list(names: Seq<Seq<char>>, a: Seq<Seq<char>>)
    ensures
        unshadowed(names, a, a) == names.filter(|n: Seq<char>| !a.contains(n)),
    decreases names.len(),
{
    reveal(Seq::filter);
    if names.len() > 0 {
        law_names_shadowed_by_one_list(names.drop_last(), a);
    }
}

/// Of the target's files those in `/etc` come last, those of the runtime before
/// them and those of the vendor first. One of the vendor's counts where neither of
/// the others has its name, and one of the runtime's where `/etc` has not.
pub proof fn law_files_of_a_target(vendor: ConfigDirView, runtime: ConfigDirView, etc: ConfigDirView)
    requires
        target_files(vendor, runtime, etc) is Ok,
    ensures
        ({
            let files = target_files(vendor, runtime, etc)->Ok_0;
            let v = drop_ins_of(vendor)->Ok_0;
            let r = drop_ins_of(runtime)->Ok_0;
            let e = drop_ins_of(etc)->Ok_0;
            let vs = v.filter(|n: Seq<char>| !r.contains(n) && !e.contains(n));
            let rs = r.filter(|n: Seq<char>| !e.contains(n));
            let m: int = if etc.main is Some && etc.main->0 is File {
                1
            } else {
                0
            };
            &&& files.len() == vs.len() + rs.len() + m + e.len()
            &&& forall|i: int|
                0 <= i < vs.len() ==> #[trigger] files[i] == join_path(
                    join_path(vendor.path, "conf.d"@),
                    vs[i],
                )
            &&& forall|i: int|
                0 <= i < rs.len() ==> files[vs.len() + i] == join_path(
                    join_path(runtime.path, "conf.d"@),
                    #[trigger] rs[i],
                )
            &&& m == 1 ==> files[(vs.len() + rs.len()) as int] == join_path(
                etc.path,
                "NetworkManager.conf"@,
            )
            &&& forall|i: int|
                0 <= i < e.len() ==> files[vs.len() + rs.len() + m + i] == join_path(
                    join_path(etc.path, "conf.d"@),
                    #[trigger] e[i],
                )
        }),
{
    let v = drop_ins_of(vendor)->Ok_0;
    let r = drop_ins_of(runtime)->Ok_0;
    let e = drop_ins_of(etc)->Ok_0;
    law_shadowed_names(v, r, e);
    law_names_shadowed_by_one_list(r, e);
}

/// The value of a key is that of the item that has it, in the section of that
/// name.
pub proof fn law_value_of_a_key(doc: Sections, i: int, k: int)
    requires
        names_differ(doc),
        0 <= i < doc.len(),
        0 <= k < doc[i].1.len(),
    ensures
        lookup(doc, doc[i].0, doc[i].1[k].0) == Some(doc[i].1[k].1),
{
    lemma_section(doc, i);
    lemma_key(doc[i].1, k);
}

proof fn lemma_section(doc: Sections, i: int)
    requires
        0 <= i < doc.len(),
        forall|a: int, b: int|
            0 <= a < b < doc.len() ==> (#[trigger] doc[a]).0 != (#[trigger] doc[b]).0,
    ensures
        section_index(doc, doc[i].0) == i,
    decreases i,
{
    if i > 0 {
        let d = doc.skip(1);
        assert(doc[0].0 != doc[i].0);
        assert(d[i - 1] == doc[i]);
        assert forall|a: int, b: int| 0 <= a < b < d.len() implies (#[trigger] d[a]).0 != (
        #[trigger] d[b]).0 by {
            assert(d[a] == doc[a + 1] && d[b] == doc[b + 1]);
        }
        lemma_section(d, i - 1);
    }
}

proof fn lemma_key(items: Items, k: int)
    requires
        0 <= k < items.len(),
        forall|a: int, b: int|
            0 <= a < b < items.len() ==> (#[trigger] items[a]).0 != (#[trigger] items[b]).0,
    ensures
        key_index(items, items[k].0) == k,
    decreases k,
{
    if k > 0 {
        let d = items.skip(1);
        assert(items[0].0 != items[k].0);
        assert(d[k - 1] == items[k]);
        assert forall|a: int, b: int| 0 <= a < b < d.len() implies (#[trigger] d[a]).0 != (
        #[trigger] d[b]).0 by {
            assert(d[a] == items[a + 1] && d[b] == items[b + 1]);
        }
        lemma_key(d, k - 1);
    }
}

/// Every section and every item of a document has its line.
pub proof fn law_lines_of_a_document(doc: Sections, i: int, k: int)
    requires
        0 <= i < doc.len(),
    ensures
        document_lines(doc).contains("["@ + doc[i].0 + "]"@),
        0 <= k < doc[i].1.len() ==> document_lines(doc).contains(
            doc[i].1[k].0 + " = "@ + doc[i].1[k].1,
        ),
    decreases doc.len(),
{
    let d = doc.drop_last();
    let rest = document_lines(d);
    let all = document_lines(doc);
    if i < d.len() {
        law_lines_of_a_document(d, i, k);
        assert(d[i] == doc[i]);
        let h = "["@ + doc[i].0 + "]"@;
        let a = choose|a: int| 0 <= a < rest.len() && rest[a] == h;
        assert(all[a] == h);
        if 0 <= k < doc[i].1.len() {
            let l = doc[i].1[k].0 + " = "@ + doc[i].1[k].1;
            let b = choose|b: int| 0 <= b < rest.len() && rest[b] == l;
            assert(all[b] == l);
        }
    } else {
        assert(all[rest.len() as int] == "["@ + doc[i].0 + "]"@);
        if 0 <= k < doc[i].1.len() {
            assert(item_lines(doc[i].1)[k] == doc[i].1[k].0 + " = "@ + doc[i].1[k].1);
            assert(all[rest.len() + 1 + k] == item_lines(doc[i].1)[k]);
        }
    }
}

/// Of the target's files the last that selects a backend decides.
pub proof fn law_last_backend_wins(
    a: Seq<(Seq<char>, Seq<char>)>,
    c: (Seq<char>, Seq<char>),
    b: Seq<(Seq<char>, Seq<char>)>,
)
    requires
        last_backend(a) is Ok,
        ini_document(c.1) is Ok,
        lookup(ini_document(c.1)->Ok_0, "device"@, "wifi.backend"@) is Some,
        forall|i: int|
            0 <= i < b.len() ==> (ini_document((#[trigger] b[i]).1) matches Ok(doc) && lookup(
                doc,
                "device"@,
                "wifi.backend"@,
            ) is None),
    ensures
        last_backend(a + seq![c] + b) == Ok::<Option<Seq<char>>, Seq<char>>(
            lookup(ini_document(c.1)->Ok_0, "device"@, "wifi.backend"@),
        ),
    decreases b.len(),
{
    let all = a + seq![c] + b;
    if b.len() == 0 {
        assert(all.last() == c);
        assert(all.drop_last() =~= a);
    } else {
        assert(all.last() == b[b.len() - 1]);
        assert(all.drop_last() =~= a + seq![c] + b.drop_last());
        law_last_backend_wins(a, c, b.drop_last());
    }
}

/// The backend is iwd where it is called so, in capital or small letters.
pub proof fn law_backend_is_iwd(backend: Option<Seq<char>>)
    ensures
        is_iwd(backend) <==> backend is Some && lower(backend->0) == lower("iwd"@),
        is_iwd(Some("iwd"@)),
        is_iwd(None) == false,
{
}

/// The settings of iwd are those whose keys begin so, in their order.
pub proof fn law_settings_of_iwd(items: Items)
    ensures
        iwd_keys(items) == items.filter(
            |e: (Seq<char>, Seq<char>)| begins(e.0, "wifi.iwd."@),
        ).map_values(|e: (Seq<char>, Seq<char>)| e.0),
    decreases items.len(),
{
    reveal(Seq::filter);
    let p = |e: (Seq<char>, Seq<char>)| begins(e.0, "wifi.iwd."@);
    let f = |e: (Seq<char>, Seq<char>)| e.0;
    if items.len() > 0 {
        let d = items.drop_last();
        law_settings_of_iwd(d);
        assert(d.filter(p).push(items.last()).map_values(f) =~= d.filter(p).map_values(f).push(
            f(items.last()),
        ));
    } else {
        assert(iwd_keys(items) =~= items.filter(p).map_values(f));
    }
}

/// What is taken out is counted: the backend where it is iwd, and each setting of
/// iwd. A text is left where something was taken out and a setting remains.
pub proof fn law_what_is_taken_out(doc: Sections)
    ensures
        ({
            let (text, n) = strip_result(doc);
            &&& n == (if is_iwd(backend_in(doc)) {
                1nat
            } else {
                0
            }) + crate::ini::section_items(doc, "device"@).filter(
                |e: (Seq<char>, Seq<char>)| begins(e.0, "wifi.iwd."@),
            ).len()
            &&& text is Some <==> n > 0 && exists|i: int|
                0 <= i < stripped(doc).len() && (#[trigger] stripped(doc)[i]).1.len() > 0
        }),
{
    law_settings_of_iwd(crate::ini::section_items(doc, "device"@));
}

/// Whether the file holds what is taken out.
pub open spec fn holds_iwd(c: (Seq<char>, Seq<char>)) -> bool {
    ini_document(c.1) is Ok && strip_result(ini_document(c.1)->Ok_0).1 > 0
}

/// Where every file can be read, each that holds a setting of iwd is edited, in
/// order, to what is left of it, and no other is.
pub proof fn law_which_files_are_edited(configs: Seq<(Seq<char>, Seq<char>)>)
    requires
        forall|i: int| 0 <= i < configs.len() ==> ini_document((#[trigger] configs[i]).1) is Ok,
    ensures
        edits_for(configs) is Ok,
        edits_for(configs)->Ok_0.0 == configs.filter(
            |c: (Seq<char>, Seq<char>)| holds_iwd(c),
        ).map_values(
            |c: (Seq<char>, Seq<char>)|
                ConfigEditView {
                    path: c.0,
                    replacement: strip_result(ini_document(c.1)->Ok_0).0,
                },
        ),
    decreases configs.len(),
{
    reveal(Seq::filter);
    let p = |c: (Seq<char>, Seq<char>)| holds_iwd(c);
    let f = |c: (Seq<char>, Seq<char>)|
        ConfigEditView { path: c.0, replacement: strip_result(ini_document(c.1)->Ok_0).0 };
    if configs.len() > 0 {
        let d = configs.drop_last();
        let c = configs.last();
        assert(c == configs[configs.len() - 1]);
        law_which_files_are_edited(d);
        assert(d.filter(p).push(c).map_values(f) =~= d.filter(p).map_values(f).push(f(c)));
    } else {
        assert(configs.filter(p).map_values(f) =~= Seq::<ConfigEditView>::empty());
    }
}

/// The files before one that cannot be read are still edited, and none behind it.
pub proof fn law_unreadable_file_ends_the_edits(
    a: Seq<(Seq<char>, Seq<char>)>,
    c: (Seq<char>, Seq<char>),
    b: Seq<(Seq<char>, Seq<char>)>,
)
    requires
        edits_for(a) is Ok,
        ini_document(c.1) is Err,
    ensures
        edits_for(a + seq![c] + b) is Err,
        edits_for(a + seq![c] + b)->Err_0.0 == edits_for(a)->Ok_0.0,
    decreases b.len(),
{
    let all = a + seq![c] + b;
    if b.len() == 0 {
        assert(all.last() == c);
        assert(all.drop_last() =~= a);
    } else {
        assert(all.drop_last() =~= a + seq![c] + b.drop_last());
        law_unreadable_file_ends_the_edits(a, c, b.drop_last());
    }
}

/// A unit is masked where it is a link to the null device.
pub proof fn law_masked_unit(u: UnitState)
    ensures
        is_masked(u) <==> (u matches UnitState::LinkTo(t) && t@ == "/dev/null"@),
{
}

/// A number that fits is kept, and otherwise it is the greatest that does.
pub proof fn law_number_that_fits(n: nat)
    ensures
        n <= usize::MAX ==> at_most_max(n) == n,
        n > usize::MAX ==> at_most_max(n) == usize::MAX,
{
}

/// What is added begins on a line of its own: a line that was not ended is ended
/// first, and one that was is not ended twice.
pub proof fn law_path_begins_a_line(environment: Seq<char>, arch: Seq<char>)
    ensures
        ({
            let added = "# Compatibility for target images with split Mesa and NVIDIA GBM backends\n"@
                + ("GBM_BACKENDS_PATH=/usr/lib/"@ + arch + "-linux-gnu/GL/lib/gbm:/usr/lib/"@ + arch
                + "-linux-gnu/GL/default/lib/gbm"@) + "\n"@;
            &&& environment.len() == 0 || environment.last() == '\n' ==> with_backends_path(
                environment,
                arch,
            ) == environment + added
            &&& environment.len() > 0 && environment.last() != '\n' ==> with_backends_path(
                environment,
                arch,
            ) == environment.push('\n') + added
        }),
{
    reveal_strlit("\n");
    let line = "GBM_BACKENDS_PATH=/usr/lib/"@ + arch + "-linux-gnu/GL/lib/gbm:/usr/lib/"@ + arch
        + "-linux-gnu/GL/default/lib/gbm"@;
    let note = "# Compatibility for target images with split Mesa and NVIDIA GBM backends\n"@;
    let e = if environment.len() == 0 || environment.last() == '\n' {
        environment
    } else {
        environment.push('\n')
    };
    assert(crate::migration::target_compat::ended(environment) =~= e);
    assert(e + note + line + "\n"@ =~= e + (note + line + "\n"@));
}

} // verus!
