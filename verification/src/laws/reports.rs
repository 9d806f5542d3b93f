//! Laws of what is told: reports name what they are about.

use vstd::prelude::*;

use crate::cross_base::merge_gap_note;
use crate::cross_family::{
    etc_report, family_refusal_of, sidecar_lines, sidecar_report, CrossFamilyVerdict,
};
use crate::de_detect::{all_drop_ins, conf_names, detection_text, drop_ins_in, DesktopDetectionView};
use crate::de_migrate::{
    desktop_name, desktop_named, hook_report, DesktopEnvironment, HookResultView,
};
use crate::etc_conflict::{
    conflict_line, conflict_lines, conflict_report, exempt_report, EtcConflictView,
};
use crate::migration::boot_deployments::BootDeploymentView;
use crate::migration::standalone_bootloader::{deployment_line, deployment_report};
use crate::preflight::PreflightReport;
use crate::preflight::readiness::{gib_text, issues, marked, nearest_tenths, readiness_text};
use crate::remap::{
    names_line, remap_line, remap_lines, report_head, report_of, IdKind, RemapEntryView,
};
use crate::runlog::header;
use crate::scan::BaseInfoView;
use crate::text::compose::{join, pad_right};
use crate::text::numbers::decimal;
use crate::text::paths::join_path;
use crate::text::pieces::trim;
use crate::text::search::{holds, lower, occurs_at};

verus! {

/// What stands between two texts is in the whole.
pub proof fn lemma_held_between(a: Seq<char>, part: Seq<char>, b: Seq<char>)
    ensures
        holds(a + part + b, part),
{
    let s = a + part + b;
    let n = a.len() as int;
    assert(s.subrange(n, n + part.len()) =~= part);
    assert(occurs_at(s, part, n));
}

/// What a text holds, the whole holds that it is a part of.
pub proof fn lemma_held_within(a: Seq<char>, t: Seq<char>, b: Seq<char>, part: Seq<char>)
    requires
        holds(t, part),
    ensures
        holds(a + t + b, part),
        holds(a + t, part),
        holds(t + b, part),
{
    let i = choose|i: int| occurs_at(t, part, i);
    let s = a + t + b;
    let n = a.len() + i;
    assert(s.subrange(n, n + part.len()) =~= t.subrange(i, i + part.len()));
    assert(occurs_at(s, part, n));
    let l = a + t;
    assert(l.subrange(n, n + part.len()) =~= t.subrange(i, i + part.len()));
    assert(occurs_at(l, part, n));
    let r = t + b;
    assert(r.subrange(i, i + part.len()) =~= t.subrange(i, i + part.len()));
    assert(occurs_at(r, part, i));
}

/// A list of names in words holds each of them.
pub proof fn law_list_names_each(names: Seq<Seq<char>>, sep: Seq<char>, i: int)
    requires
        0 <= i < names.len(),
    ensures
        holds(join(names, sep), names[i]),
    decreases names.len(),
{
    let none = Seq::<char>::empty();
    if names.len() == 1 {
        lemma_held_between(none, names[0], none);
        assert(none + names[0] + none =~= names[0]);
    } else if i == names.len() - 1 {
        lemma_held_between(join(names.drop_last(), sep) + sep, names[i], none);
        assert(join(names.drop_last(), sep) + sep + names[i] + none =~= join(names, sep));
    } else {
        law_list_names_each(names.drop_last(), sep, i);
        assert(names.drop_last()[i] == names[i]);
        lemma_held_within(
            none,
            join(names.drop_last(), sep),
            sep + names.last(),
            names[i],
        );
        assert(join(names.drop_last(), sep) + (sep + names.last()) =~= join(names, sep));
    }
}

/// A size is told to the nearest tenth, and to the even one of two that are
/// equally near.
pub proof fn law_nearest_tenth(bytes: int)
    requires
        bytes >= 0,
    ensures
        ({
            let t = nearest_tenths(bytes);
            let off = 10 * bytes - 1073741824 * t;
            &&& -536870912 <= off <= 536870912
            &&& off == 536870912 || off == -536870912 ==> t % 2 == 0
            &&& gib_text(bytes) == decimal((t / 10) as nat) + "."@ + decimal((t % 10) as nat)
        }),
{
}

proof fn lemma_remap_line(e: RemapEntryView)
    ensures
        holds(remap_line(e), e.name),
        holds(
            remap_line(e),
            (if e.kind == IdKind::Uid {
                "uid"@
            } else {
                "gid"@
            }) + " "@ + decimal(e.old_id as nat) + " -> "@ + decimal(e.new_id as nat) + "\n"@,
        ),
{
    let none = Seq::<char>::empty();
    let change = (if e.kind == IdKind::Uid {
        "uid"@
    } else {
        "gid"@
    }) + " "@ + decimal(e.old_id as nat) + " -> "@ + decimal(e.new_id as nat) + "\n"@;
    let head = "  "@ + pad_right(e.name, 24) + " "@;
    assert(remap_line(e) =~= head + change + none);
    lemma_held_between(head, change, none);
    let pad = crate::text::compose::spaces(24 - e.name.len());
    lemma_held_between("  "@, e.name, pad + " "@ + change);
    assert(remap_line(e) =~= "  "@ + e.name + (pad + " "@ + change));
}

proof fn lemma_remap_lines(remaps: Seq<RemapEntryView>, i: int, part: Seq<char>)
    requires
        0 <= i < remaps.len(),
        holds(remap_line(remaps[i]), part),
    ensures
        holds(remap_lines(remaps), part),
    decreases remaps.len(),
{
    let none = Seq::<char>::empty();
    let rest = remap_lines(remaps.drop_last());
    if i == remaps.len() - 1 {
        lemma_held_within(rest, remap_line(remaps[i]), none, part);
    } else {
        assert(remaps.drop_last()[i] == remaps[i]);
        lemma_remap_lines(remaps.drop_last(), i, part);
        lemma_held_within(none, rest, remap_line(remaps.last()), part);
    }
}

/// The report on a plan names every account that is renumbered, with its old and
/// its new id, and every account of one side.
pub proof fn law_report_names_every_account(
    remaps: Seq<RemapEntryView>,
    steps: nat,
    source: Seq<Seq<char>>,
    target: Seq<Seq<char>>,
    i: int,
)
    ensures
        0 <= i < remaps.len() ==> ({
            let e = remaps[i];
            let r = report_of(remaps, steps, source, target);
            &&& holds(r, e.name)
            &&& holds(
                r,
                (if e.kind == IdKind::Uid {
                    "uid"@
                } else {
                    "gid"@
                }) + " "@ + decimal(e.old_id as nat) + " -> "@ + decimal(e.new_id as nat) + "\n"@,
            )
        }),
        0 <= i < source.len() ==> holds(report_of(remaps, steps, source, target), source[i]),
        0 <= i < target.len() ==> holds(report_of(remaps, steps, source, target), target[i]),
{
    let none = Seq::<char>::empty();
    let head = report_head(remaps, steps);
    let a = names_line("Source-only accounts carried verbatim: "@, source);
    let b = names_line("Target-only accounts (target defaults win): "@, target);
    let r = report_of(remaps, steps, source, target);
    if 0 <= i < remaps.len() {
        let e = remaps[i];
        let change = (if e.kind == IdKind::Uid {
            "uid"@
        } else {
            "gid"@
        }) + " "@ + decimal(e.old_id as nat) + " -> "@ + decimal(e.new_id as nat) + "\n"@;
        lemma_remap_line(e);
        lemma_remap_lines(remaps, i, e.name);
        lemma_remap_lines(remaps, i, change);
        let top = "=== Cross-base UID/GID remap report ===\n"@
            + "Diverging system accounts (renumbered during the re-base):\n"@;
        let foot = decimal(steps) + " chown pass(es) will run over /var and preserved /etc.\n"@;
        assert(head =~= top + remap_lines(remaps) + foot);
        lemma_held_within(top, remap_lines(remaps), foot, e.name);
        lemma_held_within(top, remap_lines(remaps), foot, change);
        lemma_held_within(none, head, a + b, e.name);
        lemma_held_within(none, head, a + b, change);
        assert(r =~= head + (a + b));
    }
    if 0 <= i < source.len() {
        lemma_names_line("Source-only accounts carried verbatim: "@, source, i);
        lemma_held_within(head, a, b, source[i]);
    }
    if 0 <= i < target.len() {
        lemma_names_line("Target-only accounts (target defaults win): "@, target, i);
        lemma_held_within(head + a, b, none, target[i]);
    }
}

proof fn lemma_names_line(title: Seq<char>, names: Seq<Seq<char>>, i: int)
    requires
        0 <= i < names.len(),
    ensures
        holds(names_line(title, names), names[i]),
{
    law_list_names_each(names, ", "@, i);
    lemma_held_within(title, join(names, ", "@), "\n"@, names[i]);
}

proof fn lemma_conflict_lines(cs: Seq<EtcConflictView>, i: int, part: Seq<char>)
    requires
        0 <= i < cs.len(),
        holds(conflict_line(cs[i]), part),
    ensures
        holds(conflict_lines(cs), part),
    decreases cs.len(),
{
    let none = Seq::<char>::empty();
    let rest = conflict_lines(cs.drop_last());
    if i == cs.len() - 1 {
        lemma_held_within(rest, conflict_line(cs[i]), none, part);
    } else {
        assert(cs.drop_last()[i] == cs[i]);
        lemma_conflict_lines(cs.drop_last(), i, part);
        lemma_held_within(none, rest, conflict_line(cs.last()), part);
    }
}

/// The report on `/etc` names every path in conflict and where its old value is,
/// and every path that was kept for the machine's sake.
pub proof fn law_report_names_every_conflict(
    cs: Seq<EtcConflictView>,
    exempt: Seq<Seq<char>>,
    i: int,
)
    ensures
        0 <= i < cs.len() ==> holds(conflict_report(cs), "/etc/"@ + cs[i].path) && holds(
            conflict_report(cs),
            " -> /etc/"@ + cs[i].sidecar + "\n"@,
        ),
        0 <= i < exempt.len() ==> holds(exempt_report(exempt), "/etc/"@ + exempt[i]),
{
    let none = Seq::<char>::empty();
    if 0 <= i < cs.len() {
        let c = cs[i];
        let p = "/etc/"@ + c.path;
        let q = " -> /etc/"@ + c.sidecar + "\n"@;
        let pad = crate::text::compose::spaces(44 - c.path.len());
        reveal_strlit("  /etc/");
        reveal_strlit("/etc/");
        reveal_strlit("  ");
        assert("  /etc/"@ =~= "  "@ + "/etc/"@);
        assert(conflict_line(c) =~= "  "@ + p + (pad + q));
        lemma_held_between("  "@, p, pad + q);
        assert(conflict_line(c) =~= ("  "@ + p + pad) + q + none);
        lemma_held_between("  "@ + p + pad, q, none);
        lemma_conflict_lines(cs, i, p);
        lemma_conflict_lines(cs, i, q);
        let top = "=== Cross-base /etc conflict report ===\n"@
            + "Target defaults taken; the previous value is preserved beside each path:\n"@;
        lemma_held_within(top, conflict_lines(cs), none, p);
        lemma_held_within(top, conflict_lines(cs), none, q);
        assert(conflict_report(cs) =~= top + conflict_lines(cs));
    }
    if 0 <= i < exempt.len() {
        let named = exempt.map_values(|p: Seq<char>| "/etc/"@ + p);
        assert(named[i] == "/etc/"@ + exempt[i]);
        law_list_names_each(named, ", "@, i);
        lemma_held_within(
            "Machine-specific paths whose defaults also diverged, kept as-is: "@,
            join(named, ", "@),
            "\n"@,
            named[i],
        );
    }
}

/// Another family is refused unless it was accepted, and so is one that could not
/// be told; and then the refusal says why.
pub proof fn law_when_a_family_is_refused(v: CrossFamilyVerdict, accepted: bool)
    ensures
        family_refusal_of(v, accepted) is Some <==> !accepted && !(v is SameFamily),
{
}

/// The report on the deployments counts them, and has a line for each that names
/// its checksum and its kernel.
pub proof fn law_report_names_every_deployment(deps: Seq<BootDeploymentView>, i: int)
    ensures
        deployment_report(deps).len() == deps.len() + 1,
        holds(deployment_report(deps)[0], decimal(deps.len())),
        0 <= i < deps.len() ==> holds(deployment_report(deps)[i + 1], deps[i].checksum) && holds(
            deployment_report(deps)[i + 1],
            " (kernel "@ + deps[i].kver + ")"@,
        ),
{
    let none = Seq::<char>::empty();
    lemma_held_between("Found "@, decimal(deps.len()), " deployment(s):"@);
    if 0 <= i < deps.len() {
        let d = deps[i];
        let kind = if d.is_composefs {
            "composefs"@
        } else {
            "OSTree"@
        };
        let k = " (kernel "@ + d.kver + ")"@;
        assert(deployment_report(deps)[i + 1] == deployment_line(d));
        assert(deployment_line(d) =~= ("  - "@ + kind + " "@) + d.checksum + k);
        lemma_held_between("  - "@ + kind + " "@, d.checksum, k);
        lemma_held_between("  - "@ + kind + " "@ + d.checksum, k, none);
        assert(deployment_line(d) =~= ("  - "@ + kind + " "@ + d.checksum) + k + none);
    }
}

/// What was detected is told by the names of the desktops.
pub proof fn law_desktops_are_named(des: Seq<DesktopEnvironment>, de: DesktopEnvironment, i: int)
    ensures
        detection_text(DesktopDetectionView::Single(de)) == desktop_name(de),
        0 <= i < des.len() ==> holds(
            detection_text(DesktopDetectionView::Multiple(des)),
            desktop_name(des[i]),
        ),
{
    if 0 <= i < des.len() {
        let names = des.map_values(|d: DesktopEnvironment| desktop_name(d));
        assert(names[i] == desktop_name(des[i]));
        law_list_names_each(names, ", "@, i);
        lemma_held_within("multiple ("@, join(names, ", "@), ")"@, names[i]);
    }
}

/// Every file of a directory of drop-ins that is named so is read, in every
/// directory, and those of a directory behind those of the ones before it.
pub proof fn law_every_drop_in_is_read(
    dirs: Seq<(Seq<char>, Seq<Seq<char>>)>,
    dir: (Seq<char>, Seq<Seq<char>>),
)
    ensures
        all_drop_ins(dirs.push(dir)) == all_drop_ins(dirs) + drop_ins_in(dir.0, dir.1),
        drop_ins_in(dir.0, dir.1).len() == conf_names(dir.1).len(),
        forall|n: Seq<char>| #[trigger]
            conf_names(dir.1).contains(n) ==> drop_ins_in(dir.0, dir.1).contains(
                join_path(dir.0, n),
            ),
{
    assert(dirs.push(dir).drop_last() =~= dirs);
    let names = conf_names(dir.1);
    let sorted = crate::text::order::sorted_texts(names);
    crate::text::order::law_sorting_keeps_every_text(names);
    names.to_multiset_ensures();
    sorted.to_multiset_ensures();
    assert(sorted.len() == sorted.to_multiset().len());
    assert forall|n: Seq<char>| #[trigger] names.contains(n) implies drop_ins_in(
        dir.0,
        dir.1,
    ).contains(join_path(dir.0, n)) by {
        assert(names.to_multiset().count(n) > 0);
        assert(sorted.to_multiset().count(n) > 0);
        assert(sorted.contains(n));
        let k = choose|k: int| 0 <= k < sorted.len() && sorted[k] == n;
        assert(drop_ins_in(dir.0, dir.1)[k] == join_path(dir.0, n));
    }
}

/// The note on accounts that are missing names each of them.
pub proof fn law_note_names_every_account(missing: Seq<Seq<char>>, i: int)
    requires
        0 <= i < missing.len(),
    ensures
        holds(merge_gap_note(missing), missing[i]),
{
    law_list_names_each(missing, ", "@, i);
    lemma_held_within(
        "Note (#80): the target image expects system account(s) not present in this host's live /etc/passwd or /etc/group: "@,
        join(missing, ", "@),
        ". `bootc switch`'s native /etc merge does not reconcile identity databases (unlike this tool's own composefs-conversion merge) — if a locally-modified /etc/passwd is kept verbatim across the switch, these accounts won't be added, and any service depending on them (e.g. dbus needing a `messagebus` user) may fail to start after reboot. This is informational; the re-base is not blocked."@,
        missing[i],
    );
}

/// The summary is good exactly where there is no warning, and otherwise has a line
/// for each of them.
#[verifier::rlimit(40)]
pub proof fn law_summary_has_every_warning(r: PreflightReport, i: int)
    ensures
        issues(r).len() == 0 ==> readiness_text(r)[1] == "  ✓ All preflight checks passed."@,
        0 <= i < issues(r).len() ==> holds(readiness_text(r)[i + 1], issues(r)[i]),
{
    if 0 <= i < issues(r).len() {
        let none = Seq::<char>::empty();
        let m = marked(issues(r));
        assert(m.len() == issues(r).len());
        assert(readiness_text(r)[i + 1] == m[i]);
        lemma_held_between("  ⚠ "@, issues(r)[i], none);
        assert("  ⚠ "@ + issues(r)[i] + none =~= m[i]);
    }
}

/// The report on the policy for `/etc` counts what was done to the paths and names
/// every one that was displaced.
pub proof fn law_report_names_every_displaced_path(
    host: BaseInfoView,
    target: BaseInfoView,
    taken: nat,
    dropped: nat,
    carried: nat,
    identity: nat,
    sidecars: Seq<Seq<char>>,
    i: int,
)
    ensures
        ({
            let r = etc_report(host, target, taken, dropped, carried, identity, sidecars);
            &&& 0 <= i < sidecars.len() ==> holds(r, "/etc/"@ + sidecars[i] + "\n"@)
            &&& holds(
                r,
                "  "@ + decimal(taken) + " path(s) take the target's default\n"@ + ("  "@ + decimal(
                    dropped,
                ) + " source-vendor path(s) dropped\n"@) + ("  "@ + decimal(carried)
                    + " machine-state / user-added path(s) carried verbatim\n"@) + ("  "@ + decimal(
                    identity,
                ) + " identity database(s) union-merged target-first\n"@),
            )
        }),
{
    let none = Seq::<char>::empty();
    let r = etc_report(host, target, taken, dropped, carried, identity, sidecars);
    let a = "  "@ + decimal(taken) + " path(s) take the target's default\n"@;
    let b = "  "@ + decimal(dropped) + " source-vendor path(s) dropped\n"@;
    let c = "  "@ + decimal(carried) + " machine-state / user-added path(s) carried verbatim\n"@;
    let d = "  "@ + decimal(identity) + " identity database(s) union-merged target-first\n"@;
    let top = "=== Cross-family /etc policy report ===\n"@ + crate::cross_family::description(host)
        + " -> "@ + crate::cross_family::description(target) + "\n"@;
    let foot = sidecar_report(sidecars);
    lemma_sum_of_five(top, a, b, c, d, foot);
    assert(r == top + a + b + c + d + foot);
    lemma_held_between(top, a + b + c + d, foot);
    if 0 <= i < sidecars.len() {
        let part = "/etc/"@ + sidecars[i] + "\n"@;
        lemma_sidecar_lines(sidecars, i);
        let count = crate::cross_family::count_line(
            sidecars.len(),
            " user-modified path(s) displaced, each kept as <path>.rebase-old:\n"@,
        );
        lemma_held_within(count, sidecar_lines(sidecars), none, part);
        lemma_held_within(top + a + b + c + d, foot, none, part);
    }
}

proof fn lemma_sum_of_five(
    t: Seq<char>,
    a: Seq<char>,
    b: Seq<char>,
    c: Seq<char>,
    d: Seq<char>,
    f: Seq<char>,
)
    ensures
        t + a + b + c + d + f == t + (a + b + c + d) + f,
{
    assert(t + a + b + c + d + f =~= t + (a + b + c + d) + f);
}

proof fn lemma_sidecar_lines(paths: Seq<Seq<char>>, i: int)
    requires
        0 <= i < paths.len(),
    ensures
        holds(sidecar_lines(paths), "/etc/"@ + paths[i] + "\n"@),
    decreases paths.len(),
{
    let none = Seq::<char>::empty();
    let rest = sidecar_lines(paths.drop_last());
    let line = "    /etc/"@ + paths.last() + "\n"@;
    let part = "/etc/"@ + paths[i] + "\n"@;
    if i == paths.len() - 1 {
        reveal_strlit("    /etc/");
        reveal_strlit("/etc/");
        reveal_strlit("    ");
        assert("    /etc/"@ =~= "    "@ + "/etc/"@);
        assert(line =~= "    "@ + part + none);
        lemma_held_between("    "@, part, none);
        lemma_held_within(rest, line, none, part);
    } else {
        assert(paths.drop_last()[i] == paths[i]);
        lemma_sidecar_lines(paths.drop_last(), i);
        lemma_held_within(none, rest, line, part);
    }
}

/// There is a line for every hook, which says whether it succeeded; where there
/// are none, that is said.
pub proof fn law_every_hook_is_told(results: Seq<HookResultView>, i: int)
    ensures
        results.len() == 0 ==> hook_report(results) == seq!["No hooks found."@],
        results.len() > 0 ==> hook_report(results).len() == results.len(),
        0 <= i < results.len() ==> hook_report(results)[i] == "  hook "@ + results[i].path + (
        if results[i].success {
            " [ok]"@
        } else {
            " [FAILED]"@
        }),
{
    reveal_strlit(" [");
    reveal_strlit("ok");
    reveal_strlit("]");
    reveal_strlit("FAILED");
    reveal_strlit(" [ok]");
    reveal_strlit(" [FAILED]");
    if 0 <= i < results.len() {
        assert(hook_report(results)[i] =~= "  hook "@ + results[i].path + (if results[i].success {
            " [ok]"@
        } else {
            " [FAILED]"@
        }));
    }
}

/// A desktop is found by its own name, with white space around it and in capital
/// or small letters.
pub proof fn law_desktop_by_its_name(de: DesktopEnvironment, name: Seq<char>)
    ensures
        desktop_named(name) == Some(de) <==> lower(trim(name)) == desktop_name(de),
{
    reveal_strlit("gnome");
    reveal_strlit("kde");
    reveal_strlit("cosmic");
    reveal_strlit("niri");
    reveal_strlit("xfce");
    assert("gnome"@[0] == 'g' && "kde"@[0] == 'k' && "cosmic"@[0] == 'c' && "niri"@[0] == 'n'
        && "xfce"@[0] == 'x');
}

/// The line that a run begins with names the program, its version, the time and
/// every argument.
pub proof fn law_run_is_announced(
    program: Seq<char>,
    version: Seq<char>,
    secs: u64,
    args: Seq<Seq<char>>,
    i: int,
)
    ensures
        ({
            let h = header(program, version, secs, args);
            &&& holds(h, "=== "@ + program + " "@ + version)
            &&& holds(h, ", unix time "@ + decimal(secs as nat))
            &&& 0 <= i < args.len() ==> holds(h, args[i])
        }),
{
    let none = Seq::<char>::empty();
    let h = header(program, version, secs, args);
    reveal_strlit("\n=== ");
    reveal_strlit("=== ");
    reveal_strlit("\n");
    reveal_strlit(" — run start, unix time ");
    reveal_strlit(" — run start");
    reveal_strlit(", unix time ");
    assert("\n=== "@ =~= "\n"@ + "=== "@);
    assert(" — run start, unix time "@ =~= " — run start"@ + ", unix time "@);
    let who = "=== "@ + program + " "@ + version;
    let time = ", unix time "@ + decimal(secs as nat);
    let told = if args.len() == 0 {
        "(none)"@
    } else {
        join(args, " "@)
    };
    let a = "\n"@ + who + " — run start"@;
    let b = " — args: "@ + told + " ===\n"@;
    assert(h =~= a + time + b);
    lemma_held_between(a, time, b);
    assert(h =~= "\n"@ + who + (" — run start"@ + time + b));
    lemma_held_between("\n"@, who, " — run start"@ + time + b);
    if 0 <= i < args.len() {
        law_list_names_each(args, " "@, i);
        lemma_held_within(" — args: "@, told, " ===\n"@, args[i]);
        lemma_held_within(a + time, b, none, args[i]);
    }
}

} // verus!
