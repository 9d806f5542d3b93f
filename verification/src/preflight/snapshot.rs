//! The file that keeps the state of a system before a migration.

use vstd::prelude::*;

use crate::text::numbers::{decimal, decimal_of, lemma_decimal_value};
use crate::text::order::list_contains;

verus! {

/// Where the states are kept, one file for each run.
pub const SNAPSHOT_DIR: &'static str = "/var/log/bootc-migrate";

/// The name of the `n`th file for a state captured at the given time: the first
/// has no number.
pub open spec fn record_name(secs: nat, n: nat) -> Seq<char> {
    if n == 0 {
        "preflight-"@ + decimal(secs) + ".json"@
    } else {
        "preflight-"@ + decimal(secs) + "-"@ + decimal(n) + ".json"@
    }
}

/// The name of the file for a state captured at the given time.
pub fn snapshot_filename(captured_at_unix_secs: u64) -> (r: String)
    ensures
        r@ == record_name(captured_at_unix_secs as nat, 0),
        r@ == "preflight-"@ + decimal(captured_at_unix_secs as nat) + ".json"@,
{
    let mut s: String = "preflight-".to_owned();
    s.append(decimal_of(captured_at_unix_secs).as_str());
    s.append(".json");
    s
}

/// The name of the `n`th file for a state captured at the given time.
fn numbered_filename(captured_at_unix_secs: u64, n: u64) -> (r: String)
    ensures
        r@ == record_name(captured_at_unix_secs as nat, n as nat),
{
    if n == 0 {
        return snapshot_filename(captured_at_unix_secs);
    }
    let mut s: String = "preflight-".to_owned();
    s.append(decimal_of(captured_at_unix_secs).as_str());
    s.append("-");
    s.append(decimal_of(n).as_str());
    s.append(".json");
    s
}

/// Files with different numbers have different names.
pub proof fn law_record_names_differ(secs: nat, m: nat, n: nat)
    requires
        m != n,
    ensures
        record_name(secs, m) != record_name(secs, n),
{
    reveal_strlit("-");
    let p = "preflight-"@ + decimal(secs);
    let e = ".json"@;
    if m == 0 || n == 0 {
        assert(record_name(secs, m).len() != record_name(secs, n).len());
    } else {
        let a = record_name(secs, m);
        let b = record_name(secs, n);
        let from = p.len() + 1;
        lemma_decimal_value(m);
        lemma_decimal_value(n);
        assert(a.subrange(from as int, a.len() - e.len()) =~= decimal(m));
        assert(b.subrange(from as int, b.len() - e.len()) =~= decimal(n));
    }
}

/// There are no more names in a list than the list is long.
proof fn lemma_a_name_is_free(secs: nat, present: Seq<Seq<char>>, n: nat)
    requires
        forall|m: nat| m < n ==> present.contains(#[trigger] record_name(secs, m)),
    ensures
        n <= present.len(),
{
    let names = Seq::new(n, |m: int| record_name(secs, m as nat));
    assert forall|i: int, j: int| 0 <= i < names.len() && 0 <= j < names.len() && i != j implies
        names[i] != names[j] by {
        law_record_names_differ(secs, i as nat, j as nat);
    }
    names.unique_seq_to_set();
    assert forall|x: Seq<char>| names.to_set().contains(x) implies present.to_set().contains(x) by {
        let k = choose|k: int| 0 <= k < names.len() && names[k] == x;
        assert(present.contains(record_name(secs, k as nat)));
    }
    present.lemma_cardinality_of_set();
    vstd::set_lib::lemma_len_subset(names.to_set(), present.to_set());
}

/// The name of the file for a state captured at the given time, where the files
/// of the given names are there already: the first that none of them has, so
/// that no run overwrites what another one left.
pub fn fresh_snapshot_filename(captured_at_unix_secs: u64, present: &[String]) -> (r: String)
    ensures
        !present.deep_view().contains(r@),
        exists|n: nat|
            r@ == #[trigger] record_name(captured_at_unix_secs as nat, n) && forall|m: nat|
                m < n ==> present.deep_view().contains(
                    #[trigger] record_name(captured_at_unix_secs as nat, m),
                ),
{
    let ghost secs = captured_at_unix_secs as nat;
    let ghost there = present.deep_view();
    let count: usize = present.len();
    let mut n: u64 = 0;
    let mut name: String = numbered_filename(captured_at_unix_secs, n);
    while list_contains(present, name.as_str())
        invariant
            secs == captured_at_unix_secs,
            there == present.deep_view(),
            there.len() == count,
            n <= count,
            name@ == record_name(secs, n as nat),
            forall|m: nat| m < n ==> there.contains(#[trigger] record_name(secs, m)),
        decreases count - n,
    {
        proof {
            assert forall|m: nat| m < n + 1 implies there.contains(
                #[trigger] record_name(secs, m),
            ) by {}
            lemma_a_name_is_free(secs, there, (n + 1) as nat);
        }
        n = n + 1;
        name = numbered_filename(captured_at_unix_secs, n);
    }
    name
}

} // verus!
