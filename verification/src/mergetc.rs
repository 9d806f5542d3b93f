//! What the merge of `/etc` has in common with the policies around it.

use vstd::prelude::*;

use crate::text::search::same;

verus! {

/// The databases of accounts, and the machine's own id. They are merged entry
/// by entry, or kept, and never replaced.
pub open spec fn identity_db(path: Seq<char>) -> bool {
    ||| path == "passwd"@
    ||| path == "shadow"@
    ||| path == "group"@
    ||| path == "gshadow"@
    ||| path == "subuid"@
    ||| path == "subgid"@
    ||| path == "machine-id"@
}

/// Whether the path, relative to `/etc`, is a database of accounts or the
/// machine's own id.
pub fn is_identity_db(rel_path: &str) -> (r: bool)
    ensures
        r == identity_db(rel_path@),
{
    same(rel_path, "passwd") || same(rel_path, "shadow") || same(rel_path, "group") || same(
        rel_path,
        "gshadow",
    ) || same(rel_path, "subuid") || same(rel_path, "subgid") || same(rel_path, "machine-id")
}

/// Where a path of `/etc` is present, and whether the user changed it.
#[derive(Debug, Clone, PartialEq, Eq)]
pub struct EtcPathState {
    /// The path relative to `/etc`.
    pub path: String,
    pub in_source_default: bool,
    pub in_current: bool,
    pub in_target_default: bool,
    pub user_modified: bool,
}

/// What an [`EtcPathState`] holds.
#[verifier::ext_equal]
pub struct EtcPathStateView {
    pub path: Seq<char>,
    pub in_source_default: bool,
    pub in_current: bool,
    pub in_target_default: bool,
    pub user_modified: bool,
}

impl DeepView for EtcPathState {
    type V = EtcPathStateView;

    open spec fn deep_view(&self) -> EtcPathStateView {
        EtcPathStateView {
            path: self.path@,
            in_source_default: self.in_source_default,
            in_current: self.in_current,
            in_target_default: self.in_target_default,
            user_modified: self.user_modified,
        }
    }
}

/// The paths whose merge was decided beforehand: `true` keeps the user's copy,
/// `false` takes the target's default.
#[derive(Debug, Clone, PartialEq, Eq)]
pub struct EtcDriftManifest {
    pub decisions: Vec<(String, bool)>,
}

/// What was decided for the path.
pub open spec fn decision_for(decisions: Seq<(Seq<char>, bool)>, path: Seq<char>) -> Option<bool>
    decreases decisions.len(),
{
    if decisions.len() == 0 {
        None
    } else if decisions[0].0 == path {
        Some(decisions[0].1)
    } else {
        decision_for(decisions.skip(1), path)
    }
}

impl EtcDriftManifest {
    /// What was decided for the path, if anything was.
    pub fn get(&self, path: &str) -> (r: Option<bool>)
        ensures
            r == decision_for(self.decisions.deep_view(), path@),
    {
        let ghost all = self.decisions.deep_view();
        let mut i: usize = 0;
        assert(all.skip(0) =~= all);
        while i < self.decisions.len()
            invariant
                all == self.decisions.deep_view(),
                i <= self.decisions@.len(),
                decision_for(all, path@) == decision_for(all.skip(i as int), path@),
            decreases self.decisions@.len() - i,
        {
            proof {
                assert(all.skip(i as int)[0] == self.decisions@[i as int].deep_view());
                assert(all.skip(i as int).skip(1) =~= all.skip(i + 1));
            }
            if same(self.decisions[i].0.as_str(), path) {
                return Some(self.decisions[i].1);
            }
            i = i + 1;
        }
        None
    }
}

} // verus!
