//! Laws of the decision on a re-base to another base.

use vstd::prelude::*;

use crate::cross_base::{
    delay_after, first_booted_line, first_staged_line, identity_gap, is_checksum_serial,
    is_plan_for, refusal_of, root_in_line, step_after_failure, unmarked, CrossBaseVerdict,
    ScanStepView,
};
use crate::remap::{
    gids, groups_in_lines, one_sided, passwd_in_lines, remaps_of, scratch_ids, steps_of, uids,
    used_ids, RemapPlan,
};
use crate::scan::BaseInfoView;
use crate::text::chars::{is_digit, is_hex_digit};
use crate::text::order::{lemma_sorted_set, sorted_set, strictly_sorted};
use crate::text::paths::join_path;
use crate::text::pieces::{fields, lines, trim_start};
use crate::text::search::{finishes, holds, lemma_first_index, lemma_first_index_unique, occurs_at};

verus! {

/// The waits double from one second on, up to eight.
pub proof fn law_waits_double(attempt: u32)
    requires
        attempt < u32::MAX,
    ensures
        delay_after(0) == 1,
        delay_after((attempt + 1) as u32) == if 2 * delay_after(attempt) < 8 {
            2 * delay_after(attempt)
        } else {
            8
        },
{
}

/// A scan that failed is tried again exactly where it is not a missing `curl`
/// that it failed for and the attempts are not used up; otherwise what is said
/// tells what it was for and why it failed.
pub proof fn law_when_a_scan_is_tried_again(attempt: u32, error: Seq<char>, purpose: Seq<char>)
    ensures
        ({
            let step = step_after_failure(attempt, error, purpose);
            &&& step is Retry <==> attempt < 4 && !holds(error, "is curl installed"@)
            &&& step matches ScanStepView::GiveUp { warning } ==> holds(warning, error) && holds(
                warning,
                purpose,
            )
        }),
{
    reveal_strlit("Warning: could not scan target image for ");
    let step = step_after_failure(attempt, error, purpose);
    if let ScanStepView::GiveUp { warning } = step {
        let head = "Warning: could not scan target image for "@;
        let n = head.len() as int;
        assert(warning.subrange(n, n + purpose.len()) =~= purpose);
        assert(occurs_at(warning, purpose, n));
        if holds(error, "is curl installed"@) {
            let m = n + purpose.len() + " ("@.len();
            assert(warning.subrange(m, m + error.len()) =~= error);
            assert(occurs_at(warning, error, m));
        } else {
            let before = head + purpose + " after "@ + crate::text::numbers::decimal(4nat)
                + " attempt(s) over ~"@ + crate::text::numbers::decimal(
                crate::cross_base::waited(4nat),
            ) + "s ("@;
            let m = before.len() as int;
            assert(warning =~= before + error + "); proceeding without it."@);
            assert(warning.subrange(m, m + error.len()) =~= error);
            assert(occurs_at(warning, error, m));
        }
    }
}

/// A re-base is refused exactly where it was not accepted and the bases were not
/// found to be related; where nothing could be found out, the refusal says why.
pub proof fn law_when_a_rebase_is_refused(v: CrossBaseVerdict, accepted: bool)
    ensures
        refusal_of(v, accepted) is Some <==> !accepted && !(v is SameLineage),
        !accepted ==> (v matches CrossBaseVerdict::Unknown(reason) ==> holds(
            refusal_of(v, accepted)->0,
            reason@,
        )),
{
    if !accepted {
        if let CrossBaseVerdict::Unknown(reason) = v {
            let head = "Cannot determine whether this is a cross-base re-base: "@;
            let r = refusal_of(v, accepted)->0;
            let n = head.len() as int;
            assert(r.subrange(n, n + reason@.len()) =~= reason@);
            assert(occurs_at(r, reason@, n));
        }
    }
}

/// The bases can be compared exactly where both were read.
pub proof fn law_when_bases_can_be_compared(
    host: Option<BaseInfoView>,
    scanned: bool,
    target: Option<BaseInfoView>,
)
    ensures
        identity_gap(host, scanned, target) is None <==> host is Some && scanned && target is Some,
{
}

/// The words of a line, without the star that marks the booted deployment.
pub open spec fn words_of(line: Seq<char>) -> Seq<Seq<char>> {
    fields(line).filter(|f: Seq<char>| f != "*"@)
}

proof fn lemma_unmarked(fs: Seq<Seq<char>>)
    ensures
        unmarked(fs) == fs.filter(|f: Seq<char>| f != "*"@),
    decreases fs.len(),
{
    reveal(Seq::filter);
    if fs.len() > 0 {
        lemma_unmarked(fs.drop_last());
    }
}

/// The first two words of a line are the stateroot and the deployment, and its
/// root is found below both; a line with fewer words names none.
pub proof fn law_root_of_a_deployment(line: Seq<char>)
    ensures
        words_of(line).len() < 2 <==> root_in_line(line) is Err,
        words_of(line).len() >= 2 ==> root_in_line(line) == Ok::<Seq<char>, Seq<char>>(
            join_path(
                join_path(join_path("/ostree/deploy"@, words_of(line)[0]), "deploy"@),
                words_of(line)[1],
            ),
        ),
{
    lemma_unmarked(fields(line));
}

/// A checksum and its serial are hexadecimal digits, a dot, and digits.
pub proof fn law_checksum_with_its_serial(checksum: Seq<char>, serial: Seq<char>, field: Seq<char>)
    requires
        !checksum.contains('.'),
    ensures
        is_checksum_serial(checksum + seq!['.'] + serial) <==> checksum.len() > 0 && serial.len()
            > 0 && (forall|i: int| 0 <= i < checksum.len() ==> is_hex_digit(#[trigger] checksum[i]))
            && (forall|i: int| 0 <= i < serial.len() ==> is_digit(#[trigger] serial[i])),
        !field.contains('.') ==> !is_checksum_serial(field),
{
    let s = checksum + seq!['.'] + serial;
    let n = checksum.len() as int;
    assert(s[n] == '.');
    assert forall|i: int| 0 <= i < n implies s[i] != '.' by {
        assert(s[i] == checksum[i]);
        assert(checksum.contains(checksum[i]));
    }
    lemma_first_index_unique(s, '.', n);
    assert(s.take(n) =~= checksum);
    assert(s.skip(n + 1) =~= serial);
    lemma_first_index(field, '.');
    if !field.contains('.') && crate::text::search::first_index(field, '.') < field.len() {
        assert(field.contains(field[crate::text::search::first_index(field, '.')]));
    }
}

/// Whether the line is marked as that of the booted deployment.
pub open spec fn is_marked(line: Seq<char>) -> bool {
    trim_start(line).len() > 0 && trim_start(line)[0] == '*'
}

/// Whether the line gives a stateroot, and a checksum with its serial.
pub open spec fn gives_deployment(line: Seq<char>) -> bool {
    words_of(line).len() >= 2 && !finishes(words_of(line)[0], ":"@) && is_checksum_serial(
        words_of(line)[1],
    )
}

/// The staged deployment is that of the first line that gives one and is not
/// marked, whatever comes before or behind; and there is none without such a
/// line.
pub proof fn law_staged_deployment(a: Seq<Seq<char>>, line: Seq<char>, b: Seq<Seq<char>>)
    requires
        forall|i: int|
            0 <= i < a.len() ==> is_marked(#[trigger] a[i]) || !gives_deployment(a[i]),
    ensures
        first_staged_line(a) is None,
        !is_marked(line) && gives_deployment(line) ==> first_staged_line(a + seq![line] + b)
            == Some(line),
    decreases a.len(),
{
    let ls = a + seq![line] + b;
    lemma_unmarked(fields(line));
    if a.len() == 0 {
        assert(ls[0] == line);
    } else {
        lemma_unmarked(fields(a[0]));
        assert(ls[0] == a[0]);
        assert(is_marked(a[0]) || !gives_deployment(a[0]));
        let d = a.skip(1);
        assert forall|i: int| 0 <= i < d.len() implies is_marked(#[trigger] d[i])
            || !gives_deployment(d[i]) by {
            assert(d[i] == a[i + 1]);
        }
        assert(ls.skip(1) =~= d + seq![line] + b);
        law_staged_deployment(d, line, b);
    }
}

/// The booted deployment is that of the first line that is marked; and there is
/// none without such a line.
pub proof fn law_booted_deployment(a: Seq<Seq<char>>, line: Seq<char>, b: Seq<Seq<char>>)
    requires
        forall|i: int| 0 <= i < a.len() ==> !is_marked(#[trigger] a[i]),
    ensures
        first_booted_line(a) is None,
        is_marked(line) ==> first_booted_line(a + seq![line] + b) == Some(line),
    decreases a.len(),
{
    let ls = a + seq![line] + b;
    if a.len() == 0 {
        assert(ls[0] == line);
    } else {
        assert(ls[0] == a[0]);
        assert(!is_marked(a[0]));
        let d = a.skip(1);
        assert forall|i: int| 0 <= i < d.len() implies !is_marked(#[trigger] d[i]) by {
            assert(d[i] == a[i + 1]);
        }
        assert(ls.skip(1) =~= d + seq![line] + b);
        law_booted_deployment(d, line, b);
    }
}

/// The plan for the tables renumbers what diverges between them, lists the
/// accounts of either side alone, each once and in order, and its passes are those
/// of the renumberings.
pub proof fn law_plan_of_the_tables(
    plan: RemapPlan,
    source_passwd: Seq<char>,
    source_group: Seq<char>,
    target_passwd: Seq<char>,
    target_group: Seq<char>,
    name: Seq<char>,
)
    requires
        is_plan_for(plan, source_passwd, source_group, target_passwd, target_group),
    ensures
        ({
            let sp = passwd_in_lines(lines(source_passwd));
            let sg = groups_in_lines(lines(source_group));
            let tp = passwd_in_lines(lines(target_passwd));
            let tg = groups_in_lines(lines(target_group));
            let remaps = plan.remaps.deep_view();
            &&& remaps == remaps_of(sp, sg, tp, tg)
            &&& plan.source_only.deep_view().contains(name) <==> one_sided(
                uids(sp),
                uids(tp),
            ).contains(name) || one_sided(gids(sg), gids(tg)).contains(name)
            &&& plan.target_only.deep_view().contains(name) <==> one_sided(
                uids(tp),
                uids(sp),
            ).contains(name) || one_sided(gids(tg), gids(sg)).contains(name)
            &&& strictly_sorted(plan.source_only.deep_view())
            &&& strictly_sorted(plan.target_only.deep_view())
            &&& plan.steps@ == steps_of(
                remaps,
                scratch_ids(used_ids(sp, sg, tp, tg), remaps.len()),
            )
        }),
{
    let sp = passwd_in_lines(lines(source_passwd));
    let sg = groups_in_lines(lines(source_group));
    let tp = passwd_in_lines(lines(target_passwd));
    let tg = groups_in_lines(lines(target_group));
    lemma_either(one_sided(uids(sp), uids(tp)), one_sided(gids(sg), gids(tg)), name);
    lemma_either(one_sided(uids(tp), uids(sp)), one_sided(gids(tg), gids(sg)), name);
}

proof fn lemma_either(a: Seq<Seq<char>>, b: Seq<Seq<char>>, x: Seq<char>)
    ensures
        sorted_set(a + b).contains(x) <==> a.contains(x) || b.contains(x),
        strictly_sorted(sorted_set(a + b)),
{
    let s = a + b;
    lemma_sorted_set(s);
    assert(sorted_set(s).to_set().contains(x) <==> s.to_set().contains(x));
    if a.contains(x) {
        let i = choose|i: int| 0 <= i < a.len() && a[i] == x;
        assert(s[i] == x);
    }
    if b.contains(x) {
        let i = choose|i: int| 0 <= i < b.len() && b[i] == x;
        assert(s[a.len() + i] == x);
    }
    if s.contains(x) {
        let i = choose|i: int| 0 <= i < s.len() && s[i] == x;
        if i < a.len() {
            assert(a[i] == x);
        } else {
            assert(b[i - a.len()] == x);
        }
    }
}

} // verus!
