//! Re-basing between bases that may not be related.
//!
//! Whether they are is found by scanning the target image, which can fail. Not
//! having found out is kept apart from having found nothing: a gate that could
//! not look refuses.

use vstd::prelude::*;

use crate::remap::{
    groups_in_lines, has_room, missing_names, missing_target_sysusers, parse_group, parse_passwd,
    passwd_in_lines, plan_remap, remaps_of, render_report, report_of, room_for, GroupEntry,
    PasswdEntry, RemapPlan,
};
use crate::scan::{
    is_cross_base, lineage_of, BaseInfo, BaseInfoView, Capabilities, Lineage, SysusersEntry,
};
use crate::text::compose::{join, joined};
use crate::text::numbers::{all_digits, decimal, decimal_of, is_number};
use crate::text::order::sorted_set;
use crate::text::paths::{join_path, path_join};
use crate::text::pieces::{fields, fields_of, lines, lines_of, trim_start, trimmed_start};
use crate::text::search::{
    all_hex, contains, cut, ends_with, finishes, holds, is_all_hex, same, split_once,
};

verus! {

/// How often a scan is tried.
pub const SCAN_ATTEMPTS: u32 = 4;

/// The seconds to wait after the given attempt: two to the power of its
/// number, and no more than eight.
pub open spec fn delay_after(attempt: u32) -> u64 {
    if attempt == 0 {
        1
    } else if attempt == 1 {
        2
    } else if attempt == 2 {
        4
    } else {
        8
    }
}

/// The seconds to wait after the given attempt.
pub fn scan_retry_delay(attempt: u32) -> (r: u64)
    ensures
        r == delay_after(attempt),
{
    if attempt == 0 {
        1
    } else if attempt == 1 {
        2
    } else if attempt == 2 {
        4
    } else {
        8
    }
}

/// The seconds waited before attempts from the second up to the `n`th.
pub open spec fn waited(n: nat) -> nat
    decreases n,
{
    if n <= 1 {
        0
    } else {
        waited((n - 1) as nat) + delay_after((n - 1) as u32) as nat
    }
}

/// The seconds waited if every attempt fails.
pub fn total_backoff_secs() -> (r: u64)
    ensures
        r == waited(SCAN_ATTEMPTS as nat),
        r == 14,
{
    let mut sum: u64 = 0;
    let mut a: u32 = 1;
    while a < SCAN_ATTEMPTS
        invariant
            1 <= a <= SCAN_ATTEMPTS,
            sum == waited(a as nat),
            sum <= 8 * (a - 1),
        decreases SCAN_ATTEMPTS - a,
    {
        sum = sum + scan_retry_delay(a);
        a = a + 1;
    }
    proof {
        reveal_with_fuel(waited, 5);
    }
    sum
}

/// Whether a failed scan could succeed later. A missing `curl` does not appear
/// between attempts.
pub open spec fn retryable(error: Seq<char>) -> bool {
    !holds(error, "is curl installed"@)
}

/// Whether a failed scan could succeed later, by its error message.
pub fn is_retryable_scan_error(error: &str) -> (r: bool)
    ensures
        r == retryable(error@),
{
    !contains(error, "is curl installed")
}

/// What to do after a failed scan.
#[derive(Debug, Clone, PartialEq, Eq)]
pub enum ScanStep {
    /// Wait, and try again.
    Retry { delay_secs: u64 },
    /// Give up, with a warning.
    GiveUp { warning: String },
}

/// What a [`ScanStep`] holds.
#[verifier::ext_equal]
pub enum ScanStepView {
    Retry { delay_secs: u64 },
    GiveUp { warning: Seq<char> },
}

impl DeepView for ScanStep {
    type V = ScanStepView;

    open spec fn deep_view(&self) -> ScanStepView {
        match self {
            ScanStep::Retry { delay_secs } => ScanStepView::Retry { delay_secs: *delay_secs },
            ScanStep::GiveUp { warning } => ScanStepView::GiveUp { warning: warning@ },
        }
    }
}

/// What to do after the given attempt failed.
pub open spec fn step_after_failure(
    attempt: u32,
    error: Seq<char>,
    purpose: Seq<char>,
) -> ScanStepView {
    if !retryable(error) {
        ScanStepView::GiveUp {
            warning: "Warning: could not scan target image for "@ + purpose + " ("@ + error
                + "); this failure will not resolve on retry. Proceeding without it."@,
        }
    } else if attempt < SCAN_ATTEMPTS {
        ScanStepView::Retry { delay_secs: delay_after(attempt) }
    } else {
        ScanStepView::GiveUp {
            warning: "Warning: could not scan target image for "@ + purpose + " after "@ + decimal(
                SCAN_ATTEMPTS as nat,
            ) + " attempt(s) over ~"@ + decimal(waited(SCAN_ATTEMPTS as nat)) + "s ("@ + error
                + "); proceeding without it."@,
        }
    }
}

/// What to do after the given attempt, counted from one, failed.
pub fn after_scan_failure(attempt: u32, error: &str, purpose: &str) -> (r: ScanStep)
    ensures
        r.deep_view() == step_after_failure(attempt, error@, purpose@),
{
    if !is_retryable_scan_error(error) {
        let mut w: String = "Warning: could not scan target image for ".to_owned();
        w.append(purpose);
        w.append(" (");
        w.append(error);
        w.append("); this failure will not resolve on retry. Proceeding without it.");
        return ScanStep::GiveUp { warning: w };
    }
    if attempt < SCAN_ATTEMPTS {
        return ScanStep::Retry { delay_secs: scan_retry_delay(attempt) };
    }
    let mut w: String = "Warning: could not scan target image for ".to_owned();
    w.append(purpose);
    w.append(" after ");
    w.append(decimal_of(SCAN_ATTEMPTS as u64).as_str());
    w.append(" attempt(s) over ~");
    w.append(decimal_of(total_backoff_secs()).as_str());
    w.append("s (");
    w.append(error);
    w.append("); proceeding without it.");
    ScanStep::GiveUp { warning: w }
}

/// A scan is tried [`SCAN_ATTEMPTS`] times at most: the last failure is always
/// given up on.
pub proof fn law_scan_attempts_are_bounded(
    attempt: u32,
    error: Seq<char>,
    purpose: Seq<char>,
)
    ensures
        step_after_failure(attempt, error, purpose) is Retry ==> attempt < SCAN_ATTEMPTS,
        !retryable(error) ==> step_after_failure(attempt, error, purpose) is GiveUp,
{
}

/// What could be established about a re-base.
#[derive(Debug)]
pub enum CrossBaseVerdict {
    /// The bases have nothing in common, and this is what diverges.
    CrossBase(Box<RemapPlan>),
    /// The bases are related.
    SameLineage,
    /// It could not be found out, for the reason given.
    Unknown(&'static str),
}

/// The refusal of a re-base about which nothing could be found out.
pub open spec fn unknown_refusal(reason: Seq<char>) -> Seq<char> {
    "Cannot determine whether this is a cross-base re-base: "@ + reason
        + ".\n\nThis is not the same as having checked and found nothing. The UID/GID remap and /etc conflict policy that a cross-base re-base needs cannot be planned, so proceeding would apply neither.\n\nRe-run with --accept-cross-base to proceed unguarded (appropriate when you already know the bases match), or restore access to the target image's registry and try again."@
}

/// The refusal of a re-base between unrelated bases.
pub open spec fn cross_base_refusal() -> Seq<char> {
    "Cross-base re-base detected (host and target disagree on ID/ID_LIKE). Re-run with --accept-cross-base to proceed with the remap above."@
}

/// The refusal that a verdict calls for. Only having found the bases related,
/// or the user's acceptance, goes without one.
pub open spec fn refusal_of(v: CrossBaseVerdict, accepted: bool) -> Option<Seq<char>> {
    if accepted {
        None
    } else {
        match v {
            CrossBaseVerdict::SameLineage => None,
            CrossBaseVerdict::Unknown(reason) => Some(unknown_refusal(reason@)),
            CrossBaseVerdict::CrossBase(_) => Some(cross_base_refusal()),
        }
    }
}

impl CrossBaseVerdict {
    /// The refusal that this verdict calls for, or `None` to proceed.
    pub fn refusal(&self, accepted: bool) -> (r: Option<String>)
        ensures
            r.deep_view() == refusal_of(*self, accepted),
    {
        if accepted {
            return None;
        }
        match self {
            CrossBaseVerdict::SameLineage => None,
            CrossBaseVerdict::Unknown(reason) => {
                let mut m: String = "Cannot determine whether this is a cross-base re-base: ".to_owned();
                m.append(reason);
                m.append(".\n\nThis is not the same as having checked and found nothing. The UID/GID remap and /etc conflict policy that a cross-base re-base needs cannot be planned, so proceeding would apply neither.\n\nRe-run with --accept-cross-base to proceed unguarded (appropriate when you already know the bases match), or restore access to the target image's registry and try again.");
                Some(m)
            },
            CrossBaseVerdict::CrossBase(_) => Some(
                "Cross-base re-base detected (host and target disagree on ID/ID_LIKE). Re-run with --accept-cross-base to proceed with the remap above.".to_owned(),
            ),
        }
    }
}

/// Having checked and found the bases related is the only finding that needs
/// no acceptance; acceptance lets every verdict pass.
pub proof fn law_only_a_related_base_passes_unaccepted(v: CrossBaseVerdict)
    ensures
        refusal_of(v, true) is None,
        refusal_of(v, false) is None <==> v is SameLineage,
{
}

/// What comparing the two identities found.
#[derive(Debug, Clone, Copy, PartialEq, Eq)]
pub enum BaseFinding {
    CrossBase,
    SameLineage,
    Unknown(&'static str),
}

/// Why nothing could be found out: a side's identity could not be read.
pub open spec fn identity_gap(
    host: Option<BaseInfoView>,
    scanned: bool,
    target: Option<BaseInfoView>,
) -> Option<Seq<char>> {
    if host is None {
        Some("this host's own /etc/os-release and /usr/lib/os-release are both unreadable"@)
    } else if !scanned {
        Some("the target image could not be scanned (see the registry warning above)"@)
    } else if target is None {
        Some("the target image carries no readable os-release identity"@)
    } else {
        None
    }
}

/// The target's identity in its capabilities, where it could be scanned.
pub open spec fn target_base(caps: Option<Capabilities>) -> Option<BaseInfoView> {
    match caps {
        Some(c) => c.base.deep_view(),
        None => None,
    }
}

/// What comparing the host's identity with that of the scanned target finds.
pub fn compare_bases(host: &Option<BaseInfo>, caps: &Option<Capabilities>) -> (r: BaseFinding)
    ensures
        match identity_gap(host.deep_view(), caps is Some, target_base(*caps)) {
            Some(why) => r matches BaseFinding::Unknown(reason) && reason@ == why,
            None => r == (if lineage_of(host.deep_view()->0, target_base(*caps)->0)
                == Lineage::CrossFamily {
                BaseFinding::CrossBase
            } else {
                BaseFinding::SameLineage
            }),
        },
{
    match host {
        None => BaseFinding::Unknown(
            "this host's own /etc/os-release and /usr/lib/os-release are both unreadable",
        ),
        Some(h) => match caps {
            None => BaseFinding::Unknown(
                "the target image could not be scanned (see the registry warning above)",
            ),
            Some(c) => match &c.base {
                None => BaseFinding::Unknown(
                    "the target image carries no readable os-release identity",
                ),
                Some(t) => {
                    if is_cross_base(h, t) {
                        BaseFinding::CrossBase
                    } else {
                        BaseFinding::SameLineage
                    }
                },
            },
        },
    }
}

/// Whether the ids above the scratch range are enough for the accounts of the
/// tables with the given texts.
pub open spec fn plannable(sp: Seq<char>, sg: Seq<char>, tp: Seq<char>, tg: Seq<char>) -> bool {
    room_for(
        passwd_in_lines(lines(sp)).len(),
        groups_in_lines(lines(sg)).len(),
        passwd_in_lines(lines(tp)).len(),
        groups_in_lines(lines(tg)).len(),
    )
}

/// Whether the ids above the scratch range are enough for the accounts of the
/// tables. A caller asks this before a plan is made.
pub fn is_plannable(
    source_passwd: &str,
    source_group: &str,
    target_passwd: &str,
    target_group: &str,
) -> (r: bool)
    ensures
        r == plannable(source_passwd@, source_group@, target_passwd@, target_group@),
{
    let sp: Vec<PasswdEntry> = parse_passwd(source_passwd);
    let sg: Vec<GroupEntry> = parse_group(source_group);
    let tp: Vec<PasswdEntry> = parse_passwd(target_passwd);
    let tg: Vec<GroupEntry> = parse_group(target_group);
    proof {
        assert(sp@.len() == sp.deep_view().len());
        assert(sg@.len() == sg.deep_view().len());
        assert(tp@.len() == tp.deep_view().len());
        assert(tg@.len() == tg.deep_view().len());
    }
    has_room(sp.as_slice(), sg.as_slice(), tp.as_slice(), tg.as_slice())
}

/// The plan that renumbers the source's accounts, from the texts of the four
/// tables.
pub fn plan_from_tables(
    source_passwd: &str,
    source_group: &str,
    target_passwd: &str,
    target_group: &str,
) -> (r: RemapPlan)
    requires
        plannable(source_passwd@, source_group@, target_passwd@, target_group@),
    ensures
        is_plan_for(r, source_passwd@, source_group@, target_passwd@, target_group@),
{
    let sp: Vec<PasswdEntry> = parse_passwd(source_passwd);
    let sg: Vec<GroupEntry> = parse_group(source_group);
    let tp: Vec<PasswdEntry> = parse_passwd(target_passwd);
    let tg: Vec<GroupEntry> = parse_group(target_group);
    proof {
        assert(sp@.len() == sp.deep_view().len());
        assert(sg@.len() == sg.deep_view().len());
        assert(tp@.len() == tp.deep_view().len());
        assert(tg@.len() == tg.deep_view().len());
    }
    plan_remap(sp.as_slice(), sg.as_slice(), tp.as_slice(), tg.as_slice())
}

/// Whether `plan` is the plan for the tables with the given texts.
pub open spec fn is_plan_for(
    plan: RemapPlan,
    source_passwd: Seq<char>,
    source_group: Seq<char>,
    target_passwd: Seq<char>,
    target_group: Seq<char>,
) -> bool {
    let sp = passwd_in_lines(lines(source_passwd));
    let sg = groups_in_lines(lines(source_group));
    let tp = passwd_in_lines(lines(target_passwd));
    let tg = groups_in_lines(lines(target_group));
    &&& plan.remaps.deep_view() == remaps_of(sp, sg, tp, tg)
    &&& plan.source_only.deep_view() == sorted_set(
        crate::remap::one_sided(crate::remap::uids(sp), crate::remap::uids(tp))
            + crate::remap::one_sided(crate::remap::gids(sg), crate::remap::gids(tg)),
    )
    &&& plan.target_only.deep_view() == sorted_set(
        crate::remap::one_sided(crate::remap::uids(tp), crate::remap::uids(sp))
            + crate::remap::one_sided(crate::remap::gids(tg), crate::remap::gids(sg)),
    )
    &&& plan.steps@ == crate::remap::steps_of(
        plan.remaps.deep_view(),
        crate::remap::scratch_ids(
            crate::remap::used_ids(sp, sg, tp, tg),
            plan.remaps.deep_view().len(),
        ),
    )
}

/// The verdict on a re-base, from the two identities and, where they are
/// unrelated, the account tables of both sides.
pub fn build_cross_base_plan(
    host: &Option<BaseInfo>,
    caps: &Option<Capabilities>,
    source_passwd: &str,
    source_group: &str,
    target_passwd: &str,
    target_group: &str,
) -> (r: CrossBaseVerdict)
    requires
        plannable(source_passwd@, source_group@, target_passwd@, target_group@),
    ensures
        match identity_gap(host.deep_view(), caps is Some, target_base(*caps)) {
            Some(why) => r matches CrossBaseVerdict::Unknown(reason) && reason@ == why,
            None => if lineage_of(host.deep_view()->0, target_base(*caps)->0)
                == Lineage::CrossFamily {
                r matches CrossBaseVerdict::CrossBase(plan) && is_plan_for(
                    *plan,
                    source_passwd@,
                    source_group@,
                    target_passwd@,
                    target_group@,
                )
            } else {
                r is SameLineage
            },
        },
{
    match compare_bases(host, caps) {
        BaseFinding::Unknown(reason) => CrossBaseVerdict::Unknown(reason),
        BaseFinding::SameLineage => CrossBaseVerdict::SameLineage,
        BaseFinding::CrossBase => CrossBaseVerdict::CrossBase(
            Box::new(plan_from_tables(source_passwd, source_group, target_passwd, target_group)),
        ),
    }
}

/// What is shown before a re-base is refused or goes on: the report on what
/// diverges, where the bases are unrelated.
pub fn gate_report(verdict: &CrossBaseVerdict) -> (r: Option<String>)
    ensures
        match verdict {
            CrossBaseVerdict::CrossBase(plan) => r.deep_view() == Some(
                report_of(
                    plan.remaps.deep_view(),
                    plan.steps@.len(),
                    plan.source_only.deep_view(),
                    plan.target_only.deep_view(),
                ),
            ),
            _ => r is None,
        },
{
    match verdict {
        CrossBaseVerdict::CrossBase(plan) => Some(render_report(plan)),
        _ => None,
    }
}

/// The warning where a re-base goes on unchecked.
pub open spec fn unchecked_warning(reason: Seq<char>) -> Seq<char> {
    "Warning: proceeding without cross-base checks — "@ + reason
        + ". No UID/GID remap or /etc conflict policy will be applied."@
}

/// Whether a re-base may go on: the plan to apply once it is staged, with a
/// warning where nothing was checked; or the refusal.
pub fn gate_cross_base(
    verdict: CrossBaseVerdict,
    accept_cross_base: bool,
    force: bool,
) -> (r: Result<(Option<RemapPlan>, Option<String>), String>)
    ensures
        match refusal_of(verdict, accept_cross_base || force) {
            Some(message) => r matches Err(m) && m@ == message,
            None => r matches Ok((plan, warning)) && match verdict {
                CrossBaseVerdict::CrossBase(p) => plan == Some(*p) && warning is None,
                CrossBaseVerdict::SameLineage => plan is None && warning is None,
                CrossBaseVerdict::Unknown(reason) => plan is None && warning.deep_view() == Some(
                    unchecked_warning(reason@),
                ),
            },
        },
{
    match verdict.refusal(accept_cross_base || force) {
        Some(message) => Err(message),
        None => match verdict {
            CrossBaseVerdict::CrossBase(plan) => Ok((Some(*plan), None)),
            CrossBaseVerdict::SameLineage => Ok((None, None)),
            CrossBaseVerdict::Unknown(reason) => {
                let mut w: String = "Warning: proceeding without cross-base checks — ".to_owned();
                w.append(reason);
                w.append(". No UID/GID remap or /etc conflict policy will be applied.");
                Ok((None, Some(w)))
            },
        },
    }
}

/// The note on accounts that the target expects and the host lacks.
pub open spec fn merge_gap_note(missing: Seq<Seq<char>>) -> Seq<char> {
    "Note (#80): the target image expects system account(s) not present in this host's live /etc/passwd or /etc/group: "@
        + join(missing, ", "@)
        + ". `bootc switch`'s native /etc merge does not reconcile identity databases (unlike this tool's own composefs-conversion merge) — if a locally-modified /etc/passwd is kept verbatim across the switch, these accounts won't be added, and any service depending on them (e.g. dbus needing a `messagebus` user) may fail to start after reboot. This is informational; the re-base is not blocked."@
}

/// The note on accounts that the target expects and the host lacks, if there
/// are any.
pub fn warn_identity_merge_gap(
    sysusers: &[SysusersEntry],
    host_passwd: &str,
    host_group: &str,
) -> (r: Option<String>)
    ensures
        ({
            let missing = sorted_set(
                missing_names(
                    sysusers.deep_view(),
                    passwd_in_lines(lines(host_passwd@)),
                    groups_in_lines(lines(host_group@)),
                ),
            );
            r.deep_view() == (if missing.len() == 0 {
                None
            } else {
                Some(merge_gap_note(missing))
            })
        }),
{
    let passwd: Vec<PasswdEntry> = parse_passwd(host_passwd);
    let group: Vec<GroupEntry> = parse_group(host_group);
    let missing: Vec<String> = missing_target_sysusers(
        sysusers,
        passwd.as_slice(),
        group.as_slice(),
    );
    assert(missing@.len() == missing.deep_view().len());
    if missing.len() == 0 {
        return None;
    }
    let mut note: String = "Note (#80): the target image expects system account(s) not present in this host's live /etc/passwd or /etc/group: ".to_owned();
    note.append(joined(missing.as_slice(), ", ").as_str());
    note.append(". `bootc switch`'s native /etc merge does not reconcile identity databases (unlike this tool's own composefs-conversion merge) — if a locally-modified /etc/passwd is kept verbatim across the switch, these accounts won't be added, and any service depending on them (e.g. dbus needing a `messagebus` user) may fail to start after reboot. This is informational; the re-base is not blocked.");
    Some(note)
}

/// The fields that are not the mark of the booted deployment.
pub open spec fn unmarked(fs: Seq<Seq<char>>) -> Seq<Seq<char>>
    decreases fs.len(),
{
    if fs.len() == 0 {
        Seq::empty()
    } else if fs.last() == "*"@ {
        unmarked(fs.drop_last())
    } else {
        unmarked(fs.drop_last()).push(fs.last())
    }
}

/// Where the deployment that a line of `ostree admin status` names has its
/// root: the line gives the stateroot, and the checksum with its serial.
pub open spec fn root_in_line(line: Seq<char>) -> Result<Seq<char>, Seq<char>> {
    let f = unmarked(fields(line));
    if f.len() >= 2 {
        Ok(join_path(join_path(join_path("/ostree/deploy"@, f[0]), "deploy"@), f[1]))
    } else {
        Err("malformed ostree admin status line: "@ + line)
    }
}

/// What a function that can fail with a message answered, as a value.
pub open spec fn outcome(r: Result<String, String>) -> Result<Seq<char>, Seq<char>> {
    match r {
        Ok(s) => Ok(s@),
        Err(e) => Err(e@),
    }
}

/// The fields of the line that are not the mark of the booted deployment.
fn unmarked_fields(line: &str) -> (r: Vec<String>)
    ensures
        r.deep_view() == unmarked(fields(line@)),
{
    let all: Vec<String> = fields_of(line);
    let ghost v = all.deep_view();
    let mut f: Vec<String> = Vec::new();
    let mut i: usize = 0;
    assert(f.deep_view() =~= unmarked(v.take(0)));
    while i < all.len()
        invariant
            v == all.deep_view(),
            i <= all@.len(),
            f.deep_view() == unmarked(v.take(i as int)),
        decreases all@.len() - i,
    {
        proof {
            assert(v[i as int] == all@[i as int]@);
            assert(v.take(i + 1).drop_last() =~= v.take(i as int));
            assert(v.take(i + 1).last() == v[i as int]);
        }
        let ghost before = f.deep_view();
        if !same(all[i].as_str(), "*") {
            f.push(all[i].clone());
            assert(f.deep_view() =~= before.push(v[i as int]));
        }
        i = i + 1;
    }
    assert(v.take(i as int) =~= v);
    f
}

/// The root of the deployment that a line of `ostree admin status` names.
pub fn deployment_root_from_line(line: &str) -> (r: Result<String, String>)
    ensures
        outcome(r) == root_in_line(line@),
{
    let f: Vec<String> = unmarked_fields(line);
    assert(f@.len() == f.deep_view().len());
    if f.len() < 2 {
        let mut m: String = "malformed ostree admin status line: ".to_owned();
        m.append(line);
        return Err(m);
    }
    assert(f.deep_view()[0] == f@[0]@ && f.deep_view()[1] == f@[1]@);
    let a: String = path_join("/ostree/deploy", f[0].as_str());
    let b: String = path_join(a.as_str(), "deploy");
    Ok(path_join(b.as_str(), f[1].as_str()))
}

/// Whether the field is a checksum with its serial, such as `abc123.0`.
pub open spec fn is_checksum_serial(field: Seq<char>) -> bool {
    match split_once(field, '.') {
        Some((checksum, serial)) => checksum.len() > 0 && all_hex(checksum) && is_number(serial),
        None => false,
    }
}

/// Whether the line has the shape of one that names a deployment: a stateroot,
/// and a checksum with its serial. The lines below it, which tell more of a
/// deployment, begin with a key and a colon.
pub open spec fn is_deployment_line(line: Seq<char>) -> bool {
    let f = unmarked(fields(line));
    f.len() >= 2 && !finishes(f[0], ":"@) && is_checksum_serial(f[1])
}

/// Whether the line has the shape of one that names a deployment.
fn deployment_line(line: &str) -> (r: bool)
    ensures
        r == is_deployment_line(line@),
{
    let f: Vec<String> = unmarked_fields(line);
    assert(f@.len() == f.deep_view().len());
    if f.len() < 2 {
        return false;
    }
    assert(f.deep_view()[0] == f@[0]@ && f.deep_view()[1] == f@[1]@);
    if ends_with(f[0].as_str(), ":") {
        return false;
    }
    match cut(f[1].as_str(), '.') {
        Some((checksum, serial)) => !checksum.as_str().is_empty() && is_all_hex(checksum.as_str())
            && all_digits(serial.as_str()),
        None => false,
    }
}

/// Whether the line names the booted deployment.
pub open spec fn is_booted_line(line: Seq<char>) -> bool {
    let t = trim_start(line);
    t.len() > 0 && t[0] == '*'
}

/// The first line that names a deployment other than the booted one.
pub open spec fn first_staged_line(ls: Seq<Seq<char>>) -> Option<Seq<char>>
    decreases ls.len(),
{
    if ls.len() == 0 {
        None
    } else if !is_booted_line(ls[0]) && is_deployment_line(ls[0]) {
        Some(ls[0])
    } else {
        first_staged_line(ls.skip(1))
    }
}

/// The first line that names the booted deployment.
pub open spec fn first_booted_line(ls: Seq<Seq<char>>) -> Option<Seq<char>>
    decreases ls.len(),
{
    if ls.len() == 0 {
        None
    } else if is_booted_line(ls[0]) {
        Some(ls[0])
    } else {
        first_booted_line(ls.skip(1))
    }
}

/// Whether the line names the booted deployment.
fn booted_line(line: &str) -> (r: bool)
    ensures
        r == is_booted_line(line@),
{
    let t: String = trimmed_start(line);
    !t.as_str().is_empty() && t.as_str().get_char(0) == '*'
}

/// The root of the staged deployment: of the two that `ostree admin status`
/// lists after a switch, the one that is not booted. A line that does not
/// name a deployment is passed over.
pub fn parse_staged_deployment_root(admin_status_stdout: &str) -> (r: Result<String, String>)
    ensures
        outcome(r) == match first_staged_line(lines(admin_status_stdout@)) {
            Some(line) => root_in_line(line),
            None => Err("no staged (non-booted) deployment found in ostree admin status"@),
        },
{
    let ls: Vec<String> = lines_of(admin_status_stdout);
    let ghost all = ls.deep_view();
    let mut i: usize = 0;
    assert(all.skip(0) =~= all);
    while i < ls.len()
        invariant
            all == ls.deep_view(),
            all == lines(admin_status_stdout@),
            i <= ls@.len(),
            first_staged_line(all) == first_staged_line(all.skip(i as int)),
        decreases ls@.len() - i,
    {
        proof {
            assert(all.skip(i as int)[0] == ls@[i as int]@);
            assert(all.skip(i as int).skip(1) =~= all.skip(i + 1));
        }
        if !booted_line(ls[i].as_str()) && deployment_line(ls[i].as_str()) {
            return deployment_root_from_line(ls[i].as_str());
        }
        i = i + 1;
    }
    Err("no staged (non-booted) deployment found in ostree admin status".to_owned())
}

/// The staged deployment is named by a line of the output that has the shape
/// of one and is not marked as booted. There is none only where no line is
/// such.
pub proof fn law_staged_line_names_a_deployment(ls: Seq<Seq<char>>)
    ensures
        match first_staged_line(ls) {
            Some(line) => ls.contains(line) && is_deployment_line(line) && !is_booted_line(line)
                && root_in_line(line) is Ok,
            None => forall|k: int|
                0 <= k < ls.len() ==> is_booted_line(#[trigger] ls[k]) || !is_deployment_line(ls[k]),
        },
    decreases ls.len(),
{
    if ls.len() > 0 {
        let rest = ls.skip(1);
        law_staged_line_names_a_deployment(rest);
        match first_staged_line(ls) {
            Some(line) => {
                if !is_booted_line(ls[0]) && is_deployment_line(ls[0]) {
                    assert(ls.contains(ls[0]));
                } else {
                    let m = choose|m: int| 0 <= m < rest.len() && rest[m] == line;
                    assert(ls[m + 1] == line);
                }
            },
            None => {
                assert forall|k: int| 0 <= k < ls.len() implies is_booted_line(#[trigger] ls[k])
                    || !is_deployment_line(ls[k]) by {
                    if k > 0 {
                        assert(rest[k - 1] == ls[k]);
                    }
                }
            },
        }
    }
}

/// The root of the booted deployment in the output of `ostree admin status`.
pub fn parse_booted_deployment_root(admin_status_stdout: &str) -> (r: Result<String, String>)
    ensures
        outcome(r) == match first_booted_line(lines(admin_status_stdout@)) {
            Some(line) => root_in_line(line),
            None => Err("no booted deployment found in ostree admin status"@),
        },
{
    let ls: Vec<String> = lines_of(admin_status_stdout);
    let ghost all = ls.deep_view();
    let mut i: usize = 0;
    assert(all.skip(0) =~= all);
    while i < ls.len()
        invariant
            all == ls.deep_view(),
            all == lines(admin_status_stdout@),
            i <= ls@.len(),
            first_booted_line(all) == first_booted_line(all.skip(i as int)),
        decreases ls@.len() - i,
    {
        proof {
            assert(all.skip(i as int)[0] == ls@[i as int]@);
            assert(all.skip(i as int).skip(1) =~= all.skip(i + 1));
        }
        if booted_line(ls[i].as_str()) {
            return deployment_root_from_line(ls[i].as_str());
        }
        i = i + 1;
    }
    Err("no booted deployment found in ostree admin status".to_owned())
}

/// The name, in the root of the staged deployment, of the record of the
/// renumbering.
pub const REMAP_REPORT_FILE: &'static str = "bootc-migrate-remap-report.json";

/// The name, in the root of the staged deployment, of the record of the
/// conflicts in `/etc`.
pub const ETC_CONFLICT_REPORT_FILE: &'static str = "bootc-migrate-etc-conflict-report.json";

/// The user's live `/etc`.
pub const LIVE_ETC: &'static str = "/etc";

/// The warning where a tree that the policy for `/etc` needs is missing.
pub open spec fn missing_tree(label: Seq<char>, dir: Seq<char>) -> Seq<char> {
    "Warning: "@ + label + " not found at "@ + dir
        + " — skipping the cross-base /etc conflict policy (#67). The staged deployment keeps `bootc switch`'s own merge result, so any target default this host had locally modified stays overridden by the local value."@
}

/// The warning where a tree is missing.
fn missing_tree_warning(label: &str, dir: &str) -> (r: String)
    ensures
        r@ == missing_tree(label@, dir@),
{
    let mut w: String = "Warning: ".to_owned();
    w.append(label);
    w.append(" not found at ");
    w.append(dir);
    w.append(" — skipping the cross-base /etc conflict policy (#67). The staged deployment keeps `bootc switch`'s own merge result, so any target default this host had locally modified stays overridden by the local value.");
    w
}

/// Why the policy for `/etc` is skipped: the warning on the first tree that is
/// not there. With all of them present it is not skipped.
pub fn etc_policy_skip(
    source_defaults: &str,
    source_is_dir: bool,
    target_defaults: &str,
    target_is_dir: bool,
    staged_etc: &str,
    staged_is_dir: bool,
) -> (r: Option<String>)
    ensures
        r.deep_view() == (if !source_is_dir {
            Some(missing_tree("source image /etc defaults"@, source_defaults@))
        } else if !target_is_dir {
            Some(missing_tree("target image /etc defaults"@, target_defaults@))
        } else if !staged_is_dir {
            Some(missing_tree("staged /etc"@, staged_etc@))
        } else {
            None
        }),
{
    if !source_is_dir {
        Some(missing_tree_warning("source image /etc defaults", source_defaults))
    } else if !target_is_dir {
        Some(missing_tree_warning("target image /etc defaults", target_defaults))
    } else if !staged_is_dir {
        Some(missing_tree_warning("staged /etc", staged_etc))
    } else {
        None
    }
}

} // verus!
