//! What a scan of an image found.

use vstd::prelude::*;

use crate::text::compose::{cloned_opt, owned};
use crate::text::order::list_contains;
use crate::text::pieces::{fields, fields_of};
use crate::text::search::same;

verus! {

/// One account that an image's `sysusers.d` declares.
#[derive(Debug, Clone, PartialEq, Eq)]
pub struct SysusersEntry {
    /// `u` for a user, `g` for a group, or another of the kinds of sysusers.d(5).
    pub kind: char,
    pub name: String,
    pub id: Option<u32>,
}

/// What a [`SysusersEntry`] holds.
#[verifier::ext_equal]
pub struct SysusersEntryView {
    pub kind: char,
    pub name: Seq<char>,
    pub id: Option<u32>,
}

impl DeepView for SysusersEntry {
    type V = SysusersEntryView;

    open spec fn deep_view(&self) -> SysusersEntryView {
        SysusersEntryView { kind: self.kind, name: self.name@, id: self.id }
    }
}


/// What an `os-release` says of a system's base.
#[derive(Debug, Clone, PartialEq, Eq)]
pub struct BaseInfo {
    pub id: String,
    /// The ids of the bases that this one is like, separated by spaces.
    pub id_like: Option<String>,
    pub version_id: Option<String>,
}

/// What a [`BaseInfo`] holds.
#[verifier::ext_equal]
pub struct BaseInfoView {
    pub id: Seq<char>,
    pub id_like: Option<Seq<char>>,
    pub version_id: Option<Seq<char>>,
}

impl DeepView for BaseInfo {
    type V = BaseInfoView;

    open spec fn deep_view(&self) -> BaseInfoView {
        BaseInfoView {
            id: self.id@,
            id_like: self.id_like.deep_view(),
            version_id: self.version_id.deep_view(),
        }
    }
}

/// A copy of `b`.
pub(crate) fn copy_base(b: &BaseInfo) -> (r: BaseInfo)
    ensures
        r.deep_view() == b.deep_view(),
{
    BaseInfo {
        id: owned(b.id.as_str()),
        id_like: cloned_opt(&b.id_like),
        version_id: cloned_opt(&b.version_id),
    }
}

/// How two bases are related.
#[derive(Debug, Clone, Copy, PartialEq, Eq, Structural)]
pub enum Lineage {
    /// They have one id.
    SameBase,
    /// They share an ancestor.
    SameFamily,
    /// They have nothing in common.
    CrossFamily,
}

/// The ids that a base goes by: its own, and those it is like.
pub open spec fn lineage_ids(b: BaseInfoView) -> Seq<Seq<char>> {
    match b.id_like {
        Some(like) => seq![b.id] + fields(like),
        None => seq![b.id],
    }
}

/// Whether the lists have a text in common.
pub open spec fn share_one(a: Seq<Seq<char>>, b: Seq<Seq<char>>) -> bool {
    exists|i: int| 0 <= i < a.len() && b.contains(#[trigger] a[i])
}

/// How two bases are related: by one id, by an id that both go by, or not.
pub open spec fn lineage_of(host: BaseInfoView, target: BaseInfoView) -> Lineage {
    if host.id == target.id {
        Lineage::SameBase
    } else if share_one(lineage_ids(host), lineage_ids(target)) {
        Lineage::SameFamily
    } else {
        Lineage::CrossFamily
    }
}

/// The ids that a base goes by.
fn ids_of(b: &BaseInfo) -> (r: Vec<String>)
    ensures
        r.deep_view() == lineage_ids(b.deep_view()),
{
    let mut r: Vec<String> = Vec::new();
    r.push(b.id.clone());
    assert(r.deep_view() =~= seq![b.id@]);
    match &b.id_like {
        Some(like) => {
            let mut more: Vec<String> = fields_of(like.as_str());
            let ghost a = r.deep_view();
            let ghost m = more.deep_view();
            r.append(&mut more);
            assert(r.deep_view() =~= a + m);
            r
        },
        None => r,
    }
}

/// How two bases are related.
pub fn lineage(host: &BaseInfo, target: &BaseInfo) -> (r: Lineage)
    ensures
        r == lineage_of(host.deep_view(), target.deep_view()),
{
    if same(host.id.as_str(), target.id.as_str()) {
        return Lineage::SameBase;
    }
    let a: Vec<String> = ids_of(host);
    let b: Vec<String> = ids_of(target);
    let ghost va = a.deep_view();
    let ghost vb = b.deep_view();
    let mut i: usize = 0;
    while i < a.len()
        invariant
            va == a.deep_view(),
            vb == b.deep_view(),
            va == lineage_ids(host.deep_view()),
            vb == lineage_ids(target.deep_view()),
            host.id@ != target.id@,
            i <= a@.len(),
            forall|k: int| 0 <= k < i ==> !vb.contains(#[trigger] va[k]),
        decreases a@.len() - i,
    {
        assert(va[i as int] == a@[i as int]@);
        if list_contains(b.as_slice(), a[i].as_str()) {
            return Lineage::SameFamily;
        }
        i = i + 1;
    }
    Lineage::CrossFamily
}

/// Whether the bases have nothing in common.
pub fn is_cross_base(host: &BaseInfo, target: &BaseInfo) -> (r: bool)
    ensures
        r == (lineage_of(host.deep_view(), target.deep_view()) == Lineage::CrossFamily),
{
    match lineage(host, target) {
        Lineage::CrossFamily => true,
        _ => false,
    }
}

/// Whether bases are related does not depend on which is the host.
pub proof fn law_lineage_is_symmetric(a: BaseInfoView, b: BaseInfoView)
    ensures
        lineage_of(a, b) == lineage_of(b, a),
{
    let x = lineage_ids(a);
    let y = lineage_ids(b);
    if share_one(x, y) {
        let i = choose|i: int| 0 <= i < x.len() && y.contains(#[trigger] x[i]);
        let j = choose|j: int| 0 <= j < y.len() && y[j] == x[i];
        assert(x.contains(y[j]));
    }
    if share_one(y, x) {
        let i = choose|i: int| 0 <= i < y.len() && x.contains(#[trigger] y[i]);
        let j = choose|j: int| 0 <= j < x.len() && x[j] == y[i];
        assert(y.contains(x[j]));
    }
}

/// What an image can do.
#[derive(Debug, Clone, PartialEq, Eq)]
pub struct Capabilities {
    /// The image's identity, if it carries a readable one.
    pub base: Option<BaseInfo>,
    pub sysusers: Vec<SysusersEntry>,
    pub bootc_present: bool,
    pub bootupd_present: bool,
    pub ostree_capable: bool,
}

} // verus!
