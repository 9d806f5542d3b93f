//! UEFI boot entries as `efibootmgr -v` prints them, and what an audit of
//! them found.

use vstd::prelude::*;

use crate::text::pieces::{lines, lines_of, trim, trimmed};
use crate::text::search::{
    after, all_hex, cut, find_char, head, is_all_hex, split_once, strip_prefix, tail, up_to,
};

verus! {

/// One UEFI boot entry.
#[derive(Debug, Clone, PartialEq, Eq)]
pub struct BootEntry {
    /// The four hexadecimal digits of `Boot####`.
    pub id: String,
    pub label: String,
    pub active: bool,
    /// The path in the entry's `File(...)` node, if it has one.
    pub loader_path: Option<String>,
}

/// What a [`BootEntry`] holds.
#[verifier::ext_equal]
pub struct BootEntryView {
    pub id: Seq<char>,
    pub label: Seq<char>,
    pub active: bool,
    pub loader_path: Option<Seq<char>>,
}

impl DeepView for BootEntry {
    type V = BootEntryView;

    open spec fn deep_view(&self) -> BootEntryView {
        BootEntryView {
            id: self.id@,
            label: self.label@,
            active: self.active,
            loader_path: self.loader_path.deep_view(),
        }
    }
}

/// What the audit noticed about an entry.
#[derive(Debug, Clone, Copy, PartialEq, Eq, Structural)]
pub enum AuditFlag {
    /// The loader path does not resolve on the audited ESP.
    Dead,
    /// Another entry has the same label and loader.
    Duplicate,
    /// The label names no distribution.
    GenericLabel,
    /// The firmware owns the entry.
    FirmwareManaged,
}

impl DeepView for AuditFlag {
    type V = AuditFlag;

    open spec fn deep_view(&self) -> AuditFlag {
        *self
    }
}

/// A boot entry with the flags that the audit gave it.
#[derive(Debug, Clone, PartialEq, Eq)]
pub struct AuditedEntry {
    pub entry: BootEntry,
    pub flags: Vec<AuditFlag>,
}

/// What an [`AuditedEntry`] holds.
#[verifier::ext_equal]
pub struct AuditedEntryView {
    pub entry: BootEntryView,
    pub flags: Seq<AuditFlag>,
}

impl DeepView for AuditedEntry {
    type V = AuditedEntryView;

    open spec fn deep_view(&self) -> AuditedEntryView {
        AuditedEntryView { entry: self.entry.deep_view(), flags: self.flags@ }
    }
}

/// A copy of `e`.
pub(crate) fn copy_entry(e: &BootEntry) -> (r: BootEntry)
    ensures
        r.deep_view() == e.deep_view(),
{
    BootEntry {
        id: e.id.clone(),
        label: e.label.clone(),
        active: e.active,
        loader_path: crate::text::compose::cloned_opt(&e.loader_path),
    }
}

impl AuditedEntryView {
    /// Dead, and not the firmware's own: the only entries a cleanup selects
    /// by itself.
    pub open spec fn preselectable(self) -> bool {
        self.flags.contains(AuditFlag::Dead) && !self.flags.contains(AuditFlag::FirmwareManaged)
    }
}

impl AuditedEntry {
    /// Whether the audit gave this entry the flag `f`.
    pub fn has_flag(&self, f: AuditFlag) -> (r: bool)
        ensures
            r == self.flags@.contains(f),
    {
        let mut i: usize = 0;
        while i < self.flags.len()
            invariant
                i <= self.flags@.len(),
                forall|k: int| 0 <= k < i ==> self.flags@[k] != f,
            decreases self.flags@.len() - i,
        {
            if self.flags[i] == f {
                return true;
            }
            i = i + 1;
        }
        false
    }

    /// Whether a cleanup may select this entry by itself.
    pub fn safe_to_preselect(&self) -> (r: bool)
        ensures
            r == self.deep_view().preselectable(),
    {
        self.has_flag(AuditFlag::Dead) && !self.has_flag(AuditFlag::FirmwareManaged)
    }
}

/// What follows the first `part` in `s`, if it is there.
pub open spec fn after_first(s: Seq<char>, part: Seq<char>) -> Option<Seq<char>>
    decreases s.len(),
{
    match after(s, part) {
        Some(rest) => Some(rest),
        None => if s.len() == 0 {
            None
        } else {
            after_first(s.skip(1), part)
        },
    }
}

/// The loader path in the description of an entry: what stands in its first
/// `File(...)`.
pub open spec fn loader_in(s: Seq<char>) -> Option<Seq<char>> {
    match after_first(s, "File("@) {
        Some(rest) => match split_once(rest, ')') {
            Some((path, _)) => Some(path),
            None => None,
        },
        None => None,
    }
}

/// The boot entry that a line of `efibootmgr -v` describes: `Boot`, four
/// hexadecimal digits, a star if the entry is active, the label up to a tab,
/// and the device path.
pub open spec fn entry_in_line(line: Seq<char>) -> Option<BootEntryView> {
    match after(trim(line), "Boot"@) {
        Some(rest) => if rest.len() >= 4 && all_hex(rest.take(4)) {
            let tail = rest.skip(4);
            let active = tail.len() > 0 && tail[0] == '*';
            let described = if active { tail.skip(1) } else { tail };
            Some(BootEntryView {
                id: rest.take(4),
                label: trim(up_to(described, '\t')),
                active,
                loader_path: loader_in(described),
            })
        } else {
            None
        },
        None => None,
    }
}

/// The boot entries that the lines describe, in order.
pub open spec fn entries_in_lines(ls: Seq<Seq<char>>) -> Seq<BootEntryView>
    decreases ls.len(),
{
    if ls.len() == 0 {
        Seq::empty()
    } else {
        match entry_in_line(ls.last()) {
            Some(e) => entries_in_lines(ls.drop_last()).push(e),
            None => entries_in_lines(ls.drop_last()),
        }
    }
}

/// What follows the first `part` in `s`, if it is there.
fn find_after(s: &str, part: &str) -> (r: Option<String>)
    ensures
        r.deep_view() == after_first(s@, part@),
{
    let n: usize = s.unicode_len();
    let mut i: usize = 0;
    assert(s@.skip(0) =~= s@);
    loop
        invariant
            n == s@.len(),
            i <= n,
            after_first(s@, part@) == after_first(s@.skip(i as int), part@),
        decreases n - i,
    {
        let rest: String = tail(s, i);
        match strip_prefix(rest.as_str(), part) {
            Some(x) => {
                return Some(x);
            },
            None => {},
        }
        if i == n {
            return None;
        }
        assert(s@.skip(i as int).skip(1) =~= s@.skip(i + 1));
        i = i + 1;
    }
}

/// The loader path in the description of an entry.
fn find_loader(s: &str) -> (r: Option<String>)
    ensures
        r.deep_view() == loader_in(s@),
{
    match find_after(s, "File(") {
        Some(rest) => match cut(rest.as_str(), ')') {
            Some((path, _)) => Some(path),
            None => None,
        },
        None => None,
    }
}

/// The boot entry that a line of `efibootmgr -v` describes.
fn parse_entry(line: &str) -> (r: Option<BootEntry>)
    ensures
        r.deep_view() == entry_in_line(line@),
{
    let t: String = trimmed(line);
    match strip_prefix(t.as_str(), "Boot") {
        Some(rest) => {
            if rest.as_str().unicode_len() < 4 {
                return None;
            }
            let id: String = head(rest.as_str(), 4);
            if !is_all_hex(id.as_str()) {
                return None;
            }
            let after_id: String = tail(rest.as_str(), 4);
            let active: bool = !after_id.as_str().is_empty() && after_id.as_str().get_char(0) == '*';
            let described: String = if active {
                tail(after_id.as_str(), 1)
            } else {
                after_id
            };
            let end: usize = find_char(described.as_str(), '\t');
            let label_text: String = head(described.as_str(), end);
            Some(
                BootEntry {
                    id,
                    label: trimmed(label_text.as_str()),
                    active,
                    loader_path: find_loader(described.as_str()),
                },
            )
        },
        None => None,
    }
}

/// The boot entries in the output of `efibootmgr -v`, in order.
pub fn parse_efibootmgr_entries(efibootmgr_v: &str) -> (r: Vec<BootEntry>)
    ensures
        r.deep_view() == entries_in_lines(lines(efibootmgr_v@)),
{
    let ls: Vec<String> = lines_of(efibootmgr_v);
    let ghost all = ls.deep_view();
    let mut r: Vec<BootEntry> = Vec::new();
    let mut i: usize = 0;
    assert(r.deep_view() =~= entries_in_lines(all.take(0)));
    while i < ls.len()
        invariant
            all == ls.deep_view(),
            i <= ls@.len(),
            r.deep_view() == entries_in_lines(all.take(i as int)),
        decreases ls@.len() - i,
    {
        proof {
            assert(all[i as int] == ls@[i as int]@);
            assert(all.take(i + 1).drop_last() =~= all.take(i as int));
        }
        let ghost before = r.deep_view();
        match parse_entry(ls[i].as_str()) {
            Some(e) => {
                r.push(e);
                assert(r.deep_view() =~= before.push(e.deep_view()));
            },
            None => {},
        }
        i = i + 1;
    }
    assert(all.take(i as int) =~= all);
    r
}

} // verus!
