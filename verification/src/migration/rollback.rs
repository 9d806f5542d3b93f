//! Returning to the OSTree deployment that a migration left in place.
//!
//! The UEFI `BootOrder` is re-ordered so that the OSTree loader's entry comes
//! before systemd-boot's. The composefs deployment stays where it is.

use vstd::prelude::*;

use crate::steps::{all_harmless, run, say, Step, StepView};
use crate::text::compose::{join, joined};
use crate::text::pieces::{
    lemma_pieces_hold_no_separator, lemma_split_tail, lemma_trim, lines, lines_of, split,
    split_at, trim, trimmed,
};
use crate::text::search::{
    after, all_hex, begins, contains, ends_with, finishes, head, holds, is_all_hex, lower, same_ignore_case, same_ignoring_case,
    starts_with, strip_prefix, tail, to_lower,
};

verus! {

/// What identifies the entry of the pre-migration OSTree loader. Matched, with
/// case ignored, against an entry's label and loader path.
pub open spec fn rollback_markers() -> Seq<Seq<char>> {
    seq!["fedora"@, "shim"@, "efi\\fedora"@, "grub"@]
}

/// Whether the text, in small letters, holds one of the markers.
pub open spec fn has_rollback_marker(s: Seq<char>) -> bool {
    exists|k: int| 0 <= k < rollback_markers().len() && holds(lower(s), #[trigger] rollback_markers()[k])
}

/// What the markers are looked for in: the label, and the loader path behind a
/// space where there is one.
pub open spec fn rollback_haystack(label: Seq<char>, loader_path: Option<Seq<char>>) -> Seq<char> {
    match loader_path {
        Some(p) => label + " "@ + p,
        None => label,
    }
}

/// The id in a line of `efibootmgr` that describes a rollback entry: the four
/// hexadecimal digits behind `Boot`, where what follows them holds a marker.
pub open spec fn rollback_id_in_line(line: Seq<char>) -> Option<Seq<char>> {
    match after(trim(line), "Boot"@) {
        Some(rest) => if rest.len() >= 4 && all_hex(rest.take(4)) && has_rollback_marker(
            rest.skip(4),
        ) {
            Some(rest.take(4))
        } else {
            None
        },
        None => None,
    }
}

/// The id in the first line that describes a rollback entry.
pub open spec fn first_rollback_id(ls: Seq<Seq<char>>) -> Option<Seq<char>>
    decreases ls.len(),
{
    if ls.len() == 0 {
        None
    } else {
        match rollback_id_in_line(ls[0]) {
            Some(id) => Some(id),
            None => first_rollback_id(ls.skip(1)),
        }
    }
}

/// The trimmed value behind `key` in the first line that begins with it.
pub open spec fn first_scalar(ls: Seq<Seq<char>>, key: Seq<char>) -> Option<Seq<char>>
    decreases ls.len(),
{
    if ls.len() == 0 {
        None
    } else {
        match after(trim(ls[0]), key) {
            Some(v) => Some(trim(v)),
            None => first_scalar(ls.skip(1), key),
        }
    }
}

/// The trimmed ids of a comma-separated boot order, without the empty ones.
pub open spec fn order_ids(parts: Seq<Seq<char>>) -> Seq<Seq<char>>
    decreases parts.len(),
{
    if parts.len() == 0 {
        Seq::empty()
    } else {
        let id = trim(parts.last());
        if id.len() > 0 {
            order_ids(parts.drop_last()).push(id)
        } else {
            order_ids(parts.drop_last())
        }
    }
}

/// `ids` without those that are `id`, with case ignored.
pub open spec fn without_id(ids: Seq<Seq<char>>, id: Seq<char>) -> Seq<Seq<char>>
    decreases ids.len(),
{
    if ids.len() == 0 {
        Seq::empty()
    } else if same_ignoring_case(ids.last(), id) {
        without_id(ids.drop_last(), id)
    } else {
        without_id(ids.drop_last(), id).push(ids.last())
    }
}

/// The boot order with `target` first and the other ids of `order` behind it.
pub open spec fn promoted_order(order: Seq<char>, target: Seq<char>) -> Seq<char> {
    join(seq![target] + without_id(order_ids(split(order, ',')), target), ","@)
}

/// Whether the text holds one of the rollback markers.
fn holds_marker(s: &str) -> (r: bool)
    ensures
        r == has_rollback_marker(s@),
{
    let low: String = to_lower(s);
    let ghost ms = rollback_markers();
    if contains(low.as_str(), "fedora") {
        assert(holds(lower(s@), ms[0]));
        return true;
    }
    if contains(low.as_str(), "shim") {
        assert(holds(lower(s@), ms[1]));
        return true;
    }
    if contains(low.as_str(), "efi\\fedora") {
        assert(holds(lower(s@), ms[2]));
        return true;
    }
    if contains(low.as_str(), "grub") {
        assert(holds(lower(s@), ms[3]));
        return true;
    }
    false
}

/// Whether an entry's label, with its loader path where it has one, identifies
/// it as the OSTree rollback entry.
pub fn is_ostree_rollback_entry(label: &str, loader_path: Option<&str>) -> (r: bool)
    ensures
        r == has_rollback_marker(
            rollback_haystack(
                label@,
                match loader_path {
                    Some(p) => Some(p@),
                    None => None,
                },
            ),
        ),
{
    let mut haystack: String = label.to_owned();
    match loader_path {
        Some(p) => {
            haystack.append(" ");
            haystack.append(p);
        },
        None => {},
    }
    holds_marker(haystack.as_str())
}

/// The id that a line of `efibootmgr` gives, if it describes a rollback entry.
fn rollback_id(line: &str) -> (r: Option<String>)
    ensures
        r.deep_view() == rollback_id_in_line(line@),
{
    let t: String = trimmed(line);
    match strip_prefix(t.as_str(), "Boot") {
        Some(rest) => {
            if rest.as_str().unicode_len() < 4 {
                return None;
            }
            let id: String = head(rest.as_str(), 4);
            if !is_all_hex(id.as_str()) {
                return None;
            }
            let described: String = tail(rest.as_str(), 4);
            if holds_marker(described.as_str()) {
                Some(id)
            } else {
                None
            }
        },
        None => None,
    }
}

/// The id of the OSTree entry in the output of `efibootmgr` or
/// `efibootmgr -v`: that of the first `Boot####` line with a rollback marker.
pub fn parse_ostree_boot_entry_id(efibootmgr_output: &str) -> (r: Option<String>)
    ensures
        r.deep_view() == first_rollback_id(lines(efibootmgr_output@)),
{
    let ls: Vec<String> = lines_of(efibootmgr_output);
    let ghost all = ls.deep_view();
    let mut i: usize = 0;
    assert(all.skip(0) =~= all);
    while i < ls.len()
        invariant
            all == ls.deep_view(),
            all == lines(efibootmgr_output@),
            i <= ls@.len(),
            first_rollback_id(all) == first_rollback_id(all.skip(i as int)),
        decreases ls@.len() - i,
    {
        proof {
            assert(all.skip(i as int)[0] == ls@[i as int]@);
            assert(all.skip(i as int).skip(1) =~= all.skip(i + 1));
        }
        match rollback_id(ls[i].as_str()) {
            Some(id) => {
                return Some(id);
            },
            None => {},
        }
        i = i + 1;
    }
    None
}

/// The `BootOrder` that `efibootmgr` printed.
pub fn parse_boot_order(efibootmgr_output: &str) -> (r: Option<String>)
    ensures
        r.deep_view() == first_scalar(lines(efibootmgr_output@), "BootOrder:"@),
{
    parse_nvram_scalar(efibootmgr_output, "BootOrder:")
}

/// The `BootCurrent` that `efibootmgr` printed: the entry that the running
/// system booted from.
pub fn parse_boot_current(efibootmgr_output: &str) -> (r: Option<String>)
    ensures
        r.deep_view() == first_scalar(lines(efibootmgr_output@), "BootCurrent:"@),
{
    parse_nvram_scalar(efibootmgr_output, "BootCurrent:")
}

/// The trimmed value behind `key` in the first line that begins with it.
fn parse_nvram_scalar(efibootmgr_output: &str, key: &str) -> (r: Option<String>)
    ensures
        r.deep_view() == first_scalar(lines(efibootmgr_output@), key@),
{
    let ls: Vec<String> = lines_of(efibootmgr_output);
    let ghost all = ls.deep_view();
    let mut i: usize = 0;
    assert(all.skip(0) =~= all);
    while i < ls.len()
        invariant
            all == ls.deep_view(),
            all == lines(efibootmgr_output@),
            i <= ls@.len(),
            first_scalar(all, key@) == first_scalar(all.skip(i as int), key@),
        decreases ls@.len() - i,
    {
        proof {
            assert(all.skip(i as int)[0] == ls@[i as int]@);
            assert(all.skip(i as int).skip(1) =~= all.skip(i + 1));
        }
        let t: String = trimmed(ls[i].as_str());
        match strip_prefix(t.as_str(), key) {
            Some(v) => {
                return Some(trimmed(v.as_str()));
            },
            None => {},
        }
        i = i + 1;
    }
    None
}

/// The trimmed ids of a comma-separated boot order, without the empty ones.
pub(crate) fn boot_order_ids(order: &str) -> (r: Vec<String>)
    ensures
        r.deep_view() == order_ids(split(order@, ',')),
{
    let parts: Vec<String> = split_at(order, ',');
    let ghost all = parts.deep_view();
    let mut r: Vec<String> = Vec::new();
    let mut i: usize = 0;
    assert(r.deep_view() =~= order_ids(all.take(0)));
    while i < parts.len()
        invariant
            all == parts.deep_view(),
            i <= parts@.len(),
            r.deep_view() == order_ids(all.take(i as int)),
        decreases parts@.len() - i,
    {
        proof {
            assert(all[i as int] == parts@[i as int]@);
            assert(all.take(i + 1).drop_last() =~= all.take(i as int));
        }
        let id: String = trimmed(parts[i].as_str());
        let ghost before = r.deep_view();
        if !id.as_str().is_empty() {
            r.push(id);
            assert(r.deep_view() =~= before.push(id@));
        }
        i = i + 1;
    }
    assert(all.take(i as int) =~= all);
    r
}

/// The boot order with `target_id` first and the other ids behind it, in the
/// order they had.
pub fn build_new_boot_order(current_order: &str, target_id: &str) -> (r: String)
    ensures
        r@ == promoted_order(current_order@, target_id@),
{
    let ids: Vec<String> = boot_order_ids(current_order);
    let ghost all = ids.deep_view();
    let mut out: Vec<String> = Vec::new();
    out.push(target_id.to_owned());
    let mut i: usize = 0;
    assert(out.deep_view() =~= seq![target_id@] + without_id(all.take(0), target_id@));
    while i < ids.len()
        invariant
            all == ids.deep_view(),
            i <= ids@.len(),
            out.deep_view() == seq![target_id@] + without_id(all.take(i as int), target_id@),
        decreases ids@.len() - i,
    {
        proof {
            assert(all[i as int] == ids@[i as int]@);
            assert(all.take(i + 1).drop_last() =~= all.take(i as int));
        }
        let ghost before = out.deep_view();
        if !same_ignore_case(ids[i].as_str(), target_id) {
            out.push(ids[i].clone());
            assert(out.deep_view() =~= before.push(all[i as int]));
            assert(before.push(all[i as int]) =~= seq![target_id@] + without_id(
                all.take(i as int),
                target_id@,
            ).push(all[i as int]));
        }
        i = i + 1;
    }
    assert(all.take(i as int) =~= all);
    joined(out.as_slice(), ",")
}

/// What the host looks like before a rollback.
#[derive(Debug, Clone, PartialEq, Eq)]
pub struct RollbackFacts {
    /// Whether the machine booted through UEFI.
    pub uefi: bool,
    /// Whether an OSTree repository is there, under `/sysroot` or `/`.
    pub ostree_present: bool,
    /// The kernel's command line.
    pub cmdline: String,
    /// The file names under `/boot/loader/entries`.
    pub loader_entries: Vec<String>,
}

/// Whether the name is that of an OSTree loader entry.
pub open spec fn is_ostree_entry(name: Seq<char>) -> bool {
    begins(name, "ostree-"@) && finishes(name, ".conf"@)
}

/// Whether one of the names is that of an OSTree loader entry.
pub open spec fn has_ostree_entry(names: Seq<Seq<char>>) -> bool {
    exists|i: int| 0 <= i < names.len() && is_ostree_entry(#[trigger] names[i])
}

/// The refusal of a rollback, if there is a reason: no UEFI, no OSTree
/// deployment left, OSTree running already, or no entry to boot.
pub open spec fn rollback_refusal(
    uefi: bool,
    ostree_present: bool,
    cmdline: Seq<char>,
    entries: Seq<Seq<char>>,
) -> Option<Seq<char>> {
    if !uefi {
        Some("rollback requires UEFI firmware."@)
    } else if !ostree_present {
        Some(
            "/sysroot/ostree not found — commit has already removed the OSTree deployment. Rollback is not possible after commit."@,
        )
    } else if !holds(cmdline, "composefs="@) {
        Some("already booted on OSTree — nothing to rollback."@)
    } else if !has_ostree_entry(entries) {
        Some("No OSTree BLS entry found under /boot/loader/entries/ostree-*.conf."@)
    } else {
        None
    }
}

/// Whether one of the names is that of an OSTree loader entry.
fn any_ostree_entry(names: &[String]) -> (r: bool)
    ensures
        r == has_ostree_entry(names.deep_view()),
{
    let ghost all = names.deep_view();
    let mut i: usize = 0;
    while i < names.len()
        invariant
            all == names.deep_view(),
            i <= names@.len(),
            forall|k: int| 0 <= k < i ==> !is_ostree_entry(#[trigger] all[k]),
        decreases names@.len() - i,
    {
        assert(all[i as int] == names@[i as int]@);
        if starts_with(names[i].as_str(), "ostree-") && ends_with(names[i].as_str(), ".conf") {
            return true;
        }
        i = i + 1;
    }
    false
}

/// Whether the host can be rolled back to OSTree, and why not.
pub fn verify_rollback_prerequisites(facts: &RollbackFacts) -> (r: Result<(), String>)
    ensures
        match rollback_refusal(
            facts.uefi,
            facts.ostree_present,
            facts.cmdline@,
            facts.loader_entries.deep_view(),
        ) {
            Some(m) => r is Err && r->Err_0@ == m,
            None => r is Ok,
        },
{
    if !facts.uefi {
        return Err("rollback requires UEFI firmware.".to_owned());
    }
    if !facts.ostree_present {
        return Err(
            "/sysroot/ostree not found — commit has already removed the OSTree deployment. Rollback is not possible after commit.".to_owned(),
        );
    }
    if !contains(facts.cmdline.as_str(), "composefs=") {
        return Err("already booted on OSTree — nothing to rollback.".to_owned());
    }
    if !any_ostree_entry(facts.loader_entries.as_slice()) {
        return Err(
            "No OSTree BLS entry found under /boot/loader/entries/ostree-*.conf.".to_owned(),
        );
    }
    Ok(())
}

/// What a rollback begins with, or why it does not: what it needs of the host is
/// asked for only where it is to change something.
pub open spec fn rollback_opening(dry_run: bool, refusal: Option<Seq<char>>) -> Result<
    Seq<Seq<char>>,
    Seq<char>,
> {
    if dry_run {
        Ok(
            seq![
                "*** DRY RUN MODE — no changes will be made ***"@,
                "Checking UEFI NVRAM boot entries..."@,
            ],
        )
    } else {
        match refusal {
            Some(m) => Err(m),
            None => Ok(seq!["Checking UEFI NVRAM boot entries..."@]),
        }
    }
}

/// What a rollback says before it reads the boot entries, or why it is refused.
/// A dry run is never refused.
pub fn open_rollback(dry_run: bool, facts: &RollbackFacts) -> (r: Result<Vec<String>, String>)
    ensures
        match rollback_opening(
            dry_run,
            rollback_refusal(
                facts.uefi,
                facts.ostree_present,
                facts.cmdline@,
                facts.loader_entries.deep_view(),
            ),
        ) {
            Ok(said) => r is Ok && r->Ok_0.deep_view() == said,
            Err(m) => r is Err && r->Err_0@ == m,
        },
{
    let mut said: Vec<String> = Vec::new();
    if dry_run {
        said.push("*** DRY RUN MODE — no changes will be made ***".to_owned());
    } else {
        match verify_rollback_prerequisites(facts) {
            Ok(_) => {},
            Err(m) => {
                return Err(m);
            },
        }
    }
    said.push("Checking UEFI NVRAM boot entries...".to_owned());
    proof {
        if dry_run {
            assert(said.deep_view() =~= seq![
                "*** DRY RUN MODE — no changes will be made ***"@,
                "Checking UEFI NVRAM boot entries..."@,
            ]);
        } else {
            assert(said.deep_view() =~= seq!["Checking UEFI NVRAM boot entries..."@]);
        }
    }
    Ok(said)
}

/// The command that registers the OSTree loader again.
pub open spec fn reregister_argv() -> Seq<Seq<char>> {
    seq![
        "efibootmgr"@,
        "--create"@,
        "--label"@,
        "Fedora"@,
        "--loader"@,
        "\\EFI\\fedora\\shimx64.efi"@,
    ]
}

/// The entry to boot first. Before it is registered its id is not known, and a
/// dry run shows one in its place.
pub open spec fn rollback_target(output: Seq<char>) -> Seq<char> {
    match first_rollback_id(lines(output)) {
        Some(id) => id,
        None => "0000"@,
    }
}

/// The boot order of a rollback.
pub open spec fn rollback_order(output: Seq<char>) -> Seq<char> {
    promoted_order(
        match first_scalar(lines(output), "BootOrder:"@) {
            Some(o) => o,
            None => Seq::empty(),
        },
        rollback_target(output),
    )
}

/// The steps that register the loader again, where no entry was found.
pub open spec fn reregister_steps(output: Seq<char>, dry_run: bool) -> Seq<StepView> {
    if first_rollback_id(lines(output)) is Some {
        Seq::empty()
    } else {
        seq![
            StepView::Say(
                "No existing Fedora entry found in NVRAM; attempting to re-register..."@,
            ),
            if dry_run {
                StepView::Say(
                    "[DRY RUN] Would execute: efibootmgr --create --label Fedora --loader \\EFI\\fedora\\shimx64.efi"@,
                )
            } else {
                StepView::Run {
                    argv: reregister_argv(),
                    context: "failed to execute efibootmgr --create"@,
                    failure: "Failed to re-register Fedora boot entry in UEFI NVRAM via efibootmgr."@,
                }
            },
        ]
    }
}

/// The steps that set the boot order.
pub open spec fn reorder_steps(output: Seq<char>, dry_run: bool) -> Seq<StepView> {
    let order = rollback_order(output);
    seq![
        StepView::Say(
            "Reordering UEFI BootOrder to prioritize entry "@ + rollback_target(output)
                + " (Fedora/OSTree)..."@,
        ),
    ] + (if dry_run {
        seq![StepView::Say("[DRY RUN] Would execute: efibootmgr --bootorder "@ + order)]
    } else {
        seq![
            StepView::Run {
                argv: seq!["efibootmgr"@, "--bootorder"@, order],
                context: "failed to execute efibootmgr --bootorder"@,
                failure: "Failed to set UEFI BootOrder via efibootmgr."@,
            },
            StepView::Say("Successfully set UEFI BootOrder to: "@ + order),
        ]
    })
}

/// The steps that reboot, or tell the user to.
pub open spec fn reboot_steps(reboot: bool, dry_run: bool) -> Seq<StepView> {
    if !reboot {
        seq![
            StepView::Say(
                "Reboot now to return to Bluefin OSTree. Run bootc-migrate commit when ready to finalize."@,
            ),
        ]
    } else {
        seq![
            StepView::Say("Triggering reboot into OSTree deployment..."@),
            if dry_run {
                StepView::Say("[DRY RUN] Would execute: systemctl reboot"@)
            } else {
                StepView::Run {
                    argv: seq!["systemctl"@, "reboot"@],
                    context: "failed to execute systemctl reboot"@,
                    failure: "Failed to trigger systemctl reboot."@,
                }
            },
        ]
    }
}

/// The steps of a rollback, once the loader is registered. An entry that is
/// not there even then cannot be put first.
pub open spec fn rollback_steps(output: Seq<char>, reboot: bool, dry_run: bool) -> Result<
    Seq<StepView>,
    Seq<char>,
> {
    if !dry_run && first_rollback_id(lines(output)) is None {
        Err("Failed to re-register Fedora boot entry in UEFI NVRAM via efibootmgr."@)
    } else {
        Ok(reorder_steps(output, dry_run) + reboot_steps(reboot, dry_run))
    }
}

/// The steps that register the OSTree loader again, where what `efibootmgr -v`
/// printed holds no entry for it. A dry run only says what it would do.
pub fn register_rollback(dry_run: bool, efibootmgr_output: &str) -> (r: Vec<Step>)
    ensures
        r.deep_view() == reregister_steps(efibootmgr_output@, dry_run),
{
    let mut steps: Vec<Step> = Vec::new();
    if parse_ostree_boot_entry_id(efibootmgr_output).is_none() {
        steps.push(say("No existing Fedora entry found in NVRAM; attempting to re-register..."));
        if dry_run {
            steps.push(
                say(
                    "[DRY RUN] Would execute: efibootmgr --create --label Fedora --loader \\EFI\\fedora\\shimx64.efi",
                ),
            );
        } else {
            let argv: [&str; 6] = [
                "efibootmgr",
                "--create",
                "--label",
                "Fedora",
                "--loader",
                "\\EFI\\fedora\\shimx64.efi",
            ];
            let step: Step = run(
                &argv,
                "failed to execute efibootmgr --create",
                "Failed to re-register Fedora boot entry in UEFI NVRAM via efibootmgr.",
            );
            assert(argv.deep_view() =~= reregister_argv());
            steps.push(step);
        }
    }
    assert(steps.deep_view() =~= reregister_steps(efibootmgr_output@, dry_run));
    steps
}

/// The steps that return to OSTree, from what `efibootmgr -v` prints once the
/// loader is registered: put it first in the boot order, and reboot or tell the
/// user to. A dry run only says what it would do.
pub fn run_rollback(reboot: bool, dry_run: bool, efibootmgr_output: &str) -> (r: Result<
    Vec<Step>,
    String,
>)
    ensures
        match r {
            Ok(steps) => rollback_steps(efibootmgr_output@, reboot, dry_run) == Ok::<
                Seq<StepView>,
                Seq<char>,
            >(steps.deep_view()),
            Err(e) => rollback_steps(efibootmgr_output@, reboot, dry_run) == Err::<
                Seq<StepView>,
                Seq<char>,
            >(e@),
        },
{
    let mut steps: Vec<Step> = Vec::new();
    let target: String = match parse_ostree_boot_entry_id(efibootmgr_output) {
        Some(id) => id,
        None => {
            if !dry_run {
                return Err(
                    "Failed to re-register Fedora boot entry in UEFI NVRAM via efibootmgr.".to_owned(),
                );
            }
            "0000".to_owned()
        },
    };
    let current: String = match parse_boot_order(efibootmgr_output) {
        Some(o) => o,
        None => String::new(),
    };
    let order: String = build_new_boot_order(current.as_str(), target.as_str());
    assert(order@ == rollback_order(efibootmgr_output@));
    let mut announce: String = "Reordering UEFI BootOrder to prioritize entry ".to_owned();
    announce.append(target.as_str());
    announce.append(" (Fedora/OSTree)...");
    steps.push(Step::Say(announce));
    if dry_run {
        let mut would: String = "[DRY RUN] Would execute: efibootmgr --bootorder ".to_owned();
        would.append(order.as_str());
        steps.push(Step::Say(would));
    } else {
        let argv: [&str; 3] = ["efibootmgr", "--bootorder", order.as_str()];
        let step: Step = run(
            &argv,
            "failed to execute efibootmgr --bootorder",
            "Failed to set UEFI BootOrder via efibootmgr.",
        );
        assert(argv.deep_view() =~= seq!["efibootmgr"@, "--bootorder"@, order@]);
        steps.push(step);
        let mut done: String = "Successfully set UEFI BootOrder to: ".to_owned();
        done.append(order.as_str());
        steps.push(Step::Say(done));
    }
    assert(steps.deep_view() =~= reorder_steps(efibootmgr_output@, dry_run));
    let ghost ordered = steps.deep_view();
    if reboot {
        steps.push(say("Triggering reboot into OSTree deployment..."));
        if dry_run {
            steps.push(say("[DRY RUN] Would execute: systemctl reboot"));
        } else {
            let argv: [&str; 2] = ["systemctl", "reboot"];
            let step: Step = run(
                &argv,
                "failed to execute systemctl reboot",
                "Failed to trigger systemctl reboot.",
            );
            assert(argv.deep_view() =~= seq!["systemctl"@, "reboot"@]);
            steps.push(step);
        }
    } else {
        steps.push(
            say(
                "Reboot now to return to Bluefin OSTree. Run bootc-migrate commit when ready to finalize.",
            ),
        );
    }
    assert(steps.deep_view() =~= ordered + reboot_steps(reboot, dry_run));
    Ok(steps)
}

/// A dry run of the rollback changes nothing.
pub proof fn law_dry_rollback_is_harmless(output: Seq<char>, reboot: bool)
    ensures
        all_harmless(reregister_steps(output, true)),
        rollback_steps(output, reboot, true) is Ok,
        all_harmless(rollback_steps(output, reboot, true)->Ok_0),
{
}

/// A rollback that is not dry sets one boot order, and what that names first is
/// an entry of the OSTree loader.
pub proof fn law_rollback_puts_ostree_first(output: Seq<char>, reboot: bool)
    requires
        rollback_steps(output, reboot, false) is Ok,
    ensures
        ({
            let steps = rollback_steps(output, reboot, false)->Ok_0;
            let order = rollback_order(output);
            &&& first_rollback_id(lines(output)) == Some(rollback_target(output))
            &&& steps.len() > 1
            &&& steps[1] is Run
            &&& steps[1]->Run_argv == seq!["efibootmgr"@, "--bootorder"@, order]
            &&& order_ids(split(order, ',')).len() > 0
            &&& order_ids(split(order, ','))[0] == rollback_target(output)
        }),
{
    let id = rollback_target(output);
    lemma_rollback_id(lines(output));
    let current = match first_scalar(lines(output), "BootOrder:"@) {
        Some(o) => o,
        None => Seq::empty(),
    };
    law_promotion_is_read_back(current, id);
}

/// The id of a rollback entry can stand in a boot order.
proof fn lemma_rollback_id(ls: Seq<Seq<char>>)
    requires
        first_rollback_id(ls) is Some,
    ensures
        is_id(first_rollback_id(ls)->0),
    decreases ls.len(),
{
    if rollback_id_in_line(ls[0]) is Some {
        let id = rollback_id_in_line(ls[0])->0;
        assert(id.len() == 4 && all_hex(id));
        assert(trim(id) =~= id);
    } else {
        lemma_rollback_id(ls.skip(1));
    }
}

/// What was in the order and is not the promoted entry stays.
pub proof fn law_promotion_keeps_the_other_entries(
    ids: Seq<Seq<char>>,
    target: Seq<char>,
    id: Seq<char>,
)
    requires
        ids.contains(id),
        !same_ignoring_case(id, target),
    ensures
        without_id(ids, target).contains(id),
    decreases ids.len(),
{
    let d = ids.drop_last();
    let w = without_id(ids, target);
    if ids.last() == id {
        assert(w[w.len() - 1] == id);
    } else {
        let k = choose|k: int| 0 <= k < ids.len() && ids[k] == id;
        assert(d[k] == id);
        law_promotion_keeps_the_other_entries(d, target, id);
        let k2 = choose|k2: int|
            0 <= k2 < without_id(d, target).len() && without_id(d, target)[k2] == id;
        assert(w[k2] == id);
    }
}

/// Whether the text can stand for an entry in a boot order.
pub open spec fn is_id(id: Seq<char>) -> bool {
    id.len() > 0 && trim(id) == id && !id.contains(',')
}

/// Whether every text of the list can.
pub open spec fn all_ids(ids: Seq<Seq<char>>) -> bool {
    forall|k: int| 0 <= k < ids.len() ==> is_id(#[trigger] ids[k])
}

/// Texts without a comma are the pieces of what they are joined to with commas.
proof fn lemma_split_joined(ids: Seq<Seq<char>>)
    requires
        ids.len() > 0,
        all_ids(ids),
    ensures
        split(join(ids, ","@), ',') == ids,
    decreases ids.len(),
{
    reveal_strlit(",");
    let last = ids.last();
    assert(is_id(ids[ids.len() - 1]));
    if ids.len() == 1 {
        let none = Seq::<char>::empty();
        lemma_split_tail(none, last, ',');
        assert(none + last =~= last);
        assert(split(none, ',') =~= seq![none]);
        assert(ids =~= seq![last]);
        assert(split(last, ',') =~= ids);
    } else {
        let d = ids.drop_last();
        assert forall|k: int| 0 <= k < d.len() implies is_id(#[trigger] d[k]) by {
            assert(d[k] == ids[k]);
        }
        lemma_split_joined(d);
        let open = join(d, ","@) + ","@;
        assert(open.drop_last() =~= join(d, ","@));
        assert(open.last() == ',');
        lemma_split_tail(open, last, ',');
        let pieces = d.push(Seq::<char>::empty());
        assert(split(open, ',') == pieces);
        assert(pieces.drop_last() =~= d);
        assert(pieces.last() + last =~= last);
        assert(d.push(last) =~= ids);
    }
}

/// Ids are read as they stand.
proof fn lemma_order_ids_of(ids: Seq<Seq<char>>)
    requires
        all_ids(ids),
    ensures
        order_ids(ids) == ids,
    decreases ids.len(),
{
    if ids.len() > 0 {
        let d = ids.drop_last();
        assert(is_id(ids[ids.len() - 1]));
        assert forall|k: int| 0 <= k < d.len() implies is_id(#[trigger] d[k]) by {
            assert(d[k] == ids[k]);
        }
        lemma_order_ids_of(d);
        assert(d.push(ids.last()) =~= ids);
    }
}

/// What is read from an order are ids.
pub proof fn lemma_ids_of_order(order: Seq<char>)
    ensures
        all_ids(order_ids(split(order, ','))),
{
    lemma_pieces_hold_no_separator(order, ',');
    lemma_read_ids(split(order, ','));
}

/// What is read from pieces without commas are ids.
proof fn lemma_read_ids(parts: Seq<Seq<char>>)
    requires
        forall|k: int| 0 <= k < parts.len() ==> !(#[trigger] parts[k]).contains(','),
    ensures
        all_ids(order_ids(parts)),
    decreases parts.len(),
{
    if parts.len() > 0 {
        let d = parts.drop_last();
        let rest = order_ids(d);
        assert forall|k: int| 0 <= k < d.len() implies !(#[trigger] d[k]).contains(',') by {
            assert(d[k] == parts[k]);
        }
        lemma_read_ids(d);
        lemma_trim(parts.last());
        assert(!parts[parts.len() - 1].contains(','));
        let all = order_ids(parts);
        assert forall|k: int| 0 <= k < all.len() implies is_id(#[trigger] all[k]) by {
            if k < rest.len() {
                assert(all[k] == rest[k]);
            }
        }
    }
}

/// An order is read back as it was put together.
pub proof fn law_orders_are_read_back(ids: Seq<Seq<char>>)
    requires
        all_ids(ids),
    ensures
        order_ids(split(join(ids, ","@), ',')) == ids,
{
    if ids.len() == 0 {
        let none = Seq::<char>::empty();
        assert(split(none, ',') =~= seq![none]);
        assert(seq![none].drop_last() =~= Seq::empty());
        assert(trim(none) =~= none);
        assert(order_ids(seq![none].drop_last()) =~= Seq::empty());
        assert(ids =~= order_ids(seq![none]));
    } else {
        lemma_split_joined(ids);
        lemma_order_ids_of(ids);
    }
}

/// The ids that are left are among those that were there, and none of them is
/// the one taken out.
proof fn lemma_without_id(ids: Seq<Seq<char>>, id: Seq<char>)
    requires
        all_ids(ids),
    ensures
        all_ids(without_id(ids, id)),
        without_id(without_id(ids, id), id) == without_id(ids, id),
    decreases ids.len(),
{
    if ids.len() > 0 {
        let d = ids.drop_last();
        let rest = without_id(d, id);
        assert(is_id(ids[ids.len() - 1]));
        assert forall|k: int| 0 <= k < d.len() implies is_id(#[trigger] d[k]) by {
            assert(d[k] == ids[k]);
        }
        lemma_without_id(d, id);
        let all = without_id(ids, id);
        assert forall|k: int| 0 <= k < all.len() implies is_id(#[trigger] all[k]) by {
            if k < rest.len() {
                assert(all[k] == rest[k]);
            }
        }
        if !same_ignoring_case(ids.last(), id) {
            assert(all.drop_last() =~= rest);
        }
    }
}

/// Taking out an id that comes first leaves the others as they are.
proof fn lemma_without_first(first: Seq<char>, ids: Seq<Seq<char>>)
    ensures
        without_id(seq![first] + ids, first) == without_id(ids, first),
    decreases ids.len(),
{
    let all = seq![first] + ids;
    if ids.len() == 0 {
        assert(all.drop_last() =~= ids);
        assert(all.last() == first);
        assert(same_ignoring_case(first, first));
    } else {
        lemma_without_first(first, ids.drop_last());
        assert(all.drop_last() =~= seq![first] + ids.drop_last());
        assert(all.last() == ids.last());
    }
}

/// The new order is read as the promoted entry, followed by the others in the
/// order that they had. To promote it again changes nothing.
pub proof fn law_promotion_is_read_back(order: Seq<char>, target: Seq<char>)
    requires
        is_id(target),
    ensures
        order_ids(split(promoted_order(order, target), ',')) == seq![target] + without_id(
            order_ids(split(order, ',')),
            target,
        ),
        promoted_order(promoted_order(order, target), target) == promoted_order(order, target),
{
    lemma_ids_of_order(order);
    let ids = order_ids(split(order, ','));
    lemma_without_id(ids, target);
    let rest = without_id(ids, target);
    let all = seq![target] + rest;
    assert forall|k: int| 0 <= k < all.len() implies is_id(#[trigger] all[k]) by {
        if k > 0 {
            assert(all[k] == rest[k - 1]);
        }
    }
    law_orders_are_read_back(all);
    lemma_without_first(target, rest);
}

/// The promoted entry comes first, and behind it no second time.
pub proof fn law_promoted_entry_occurs_once(ids: Seq<Seq<char>>, target: Seq<char>, k: int)
    requires
        0 <= k < without_id(ids, target).len(),
    ensures
        !same_ignoring_case(without_id(ids, target)[k], target),
        ids.contains(without_id(ids, target)[k]),
    decreases ids.len(),
{
    let d = ids.drop_last();
    if k < without_id(d, target).len() {
        law_promoted_entry_occurs_once(d, target, k);
        let x = without_id(d, target)[k];
        let j = choose|j: int| 0 <= j < d.len() && d[j] == x;
        assert(ids[j] == x);
    } else {
        assert(ids[ids.len() - 1] == ids.last());
    }
}

} // verus!
