//! Whether `/var` is a volume of its own, and how it stays attached.
//!
//! A composefs boot binds the stateroot's `/var` over any entry of `fstab`. A
//! volume of its own is therefore mounted at the stateroot before that, by an
//! argument on the kernel's command line, which later deployments inherit.

use vstd::prelude::*;

use crate::text::compose::{join, joined, replace_char, replaced_char};
use crate::text::pieces::{
    fields, fields_of, lines, lines_of, split, split_at, trim, trim_start, trim_start_char,
    trimmed, trimmed_start, trimmed_start_char,
};
use crate::text::search::{after, begins, cut, same, starts_with, strip_prefix, up_to};

verus! {

/// A volume that is mounted at the stateroot's `/var`.
#[derive(Debug, Clone, PartialEq, Eq)]
pub struct VarMount {
    pub uuid: String,
    pub fstype: String,
    pub options: String,
}

/// What a [`VarMount`] holds.
#[verifier::ext_equal]
pub struct VarMountView {
    pub uuid: Seq<char>,
    pub fstype: Seq<char>,
    pub options: Seq<char>,
}

impl DeepView for VarMount {
    type V = VarMountView;

    open spec fn deep_view(&self) -> VarMountView {
        VarMountView { uuid: self.uuid@, fstype: self.fstype@, options: self.options@ }
    }
}

/// A mount of `/var` by its device.
#[derive(Debug, Clone, PartialEq, Eq)]
pub struct VarMountCandidate {
    pub device: String,
    pub fstype: String,
    pub options: String,
}

/// What a [`VarMountCandidate`] holds.
#[verifier::ext_equal]
pub struct VarMountCandidateView {
    pub device: Seq<char>,
    pub fstype: Seq<char>,
    pub options: Seq<char>,
}

impl DeepView for VarMountCandidate {
    type V = VarMountCandidateView;

    open spec fn deep_view(&self) -> VarMountCandidateView {
        VarMountCandidateView { device: self.device@, fstype: self.fstype@, options: self.options@ }
    }
}

/// The subvolume that the first of the options to name one names.
pub open spec fn subvolume(options: Seq<Seq<char>>) -> Option<Seq<char>>
    decreases options.len(),
{
    if options.len() == 0 {
        None
    } else {
        match after(options[0], "subvol="@) {
            Some(v) => Some(v),
            None => subvolume(options.skip(1)),
        }
    }
}

/// The subvolume that the comma-separated options name.
fn subvolume_of(options: &str) -> (r: Option<String>)
    ensures
        r.deep_view() == subvolume(split(options@, ',')),
{
    let parts: Vec<String> = split_at(options, ',');
    let ghost all = parts.deep_view();
    let mut i: usize = 0;
    assert(all.skip(0) =~= all);
    while i < parts.len()
        invariant
            all == parts.deep_view(),
            all == split(options@, ','),
            i <= parts@.len(),
            subvolume(all) == subvolume(all.skip(i as int)),
        decreases parts@.len() - i,
    {
        proof {
            assert(all.skip(i as int)[0] == parts@[i as int]@);
            assert(all.skip(i as int).skip(1) =~= all.skip(i + 1));
        }
        match strip_prefix(parts[i].as_str(), "subvol=") {
            Some(v) => {
                return Some(v);
            },
            None => {},
        }
        i = i + 1;
    }
    None
}

/// Whether two subvolumes are one, a leading slash aside.
pub open spec fn same_subvolume(a: Seq<char>, b: Seq<char>) -> bool {
    trim_start_char(a, '/') == trim_start_char(b, '/')
}

/// Whether two subvolumes are one, a leading slash aside.
fn subvolumes_match(a: &str, b: &str) -> (r: bool)
    ensures
        r == same_subvolume(a@, b@),
{
    let x: String = trimmed_start_char(a, '/');
    let y: String = trimmed_start_char(b, '/');
    same(x.as_str(), y.as_str())
}

/// The options with which the mount is made again: none for a whole
/// filesystem, the subvolume for one that is mounted directly. A directory
/// bound from elsewhere cannot be mounted again.
pub open spec fn remount_options(
    fstype: Seq<char>,
    fsroot: Seq<char>,
    options: Seq<char>,
) -> Option<Seq<char>> {
    if fsroot == "/"@ {
        Some("defaults"@)
    } else if fstype == "btrfs"@ {
        match subvolume(split(options, ',')) {
            Some(v) => if same_subvolume(v, fsroot) {
                Some("defaults,subvol="@ + v)
            } else {
                None
            },
            None => None,
        }
    } else {
        None
    }
}

/// The mount that a row of `findmnt` describes, if it is one of `/var` that can
/// be made again.
pub open spec fn mount_in(row: Seq<char>) -> Option<VarMountCandidateView> {
    let f = fields(row);
    if f.len() < 5 || f[0] != "/var"@ {
        None
    } else {
        match remount_options(f[2], f[3], f[4]) {
            None => None,
            Some(options) => {
                let device = up_to(f[1], '[');
                if begins(device, "/dev/"@) {
                    Some(VarMountCandidateView { device, fstype: f[2], options })
                } else {
                    None
                }
            },
        }
    }
}

/// The mount that the output of
/// `findmnt -no TARGET,SOURCE,FSTYPE,FSROOT,OPTIONS /var` describes.
pub fn parse_var_mount(line: &str) -> (r: Option<VarMountCandidate>)
    ensures
        r.deep_view() == mount_in(line@),
{
    let fs: Vec<String> = fields_of(line);
    let ghost f = fs.deep_view();
    if fs.len() < 5 {
        return None;
    }
    assert(f[0] == fs@[0]@);
    assert(f[1] == fs@[1]@);
    assert(f[2] == fs@[2]@);
    assert(f[3] == fs@[3]@);
    assert(f[4] == fs@[4]@);
    if !same(fs[0].as_str(), "/var") {
        return None;
    }
    let options: String = if same(fs[3].as_str(), "/") {
        "defaults".to_owned()
    } else if same(fs[2].as_str(), "btrfs") {
        match subvolume_of(fs[4].as_str()) {
            Some(v) => {
                if !subvolumes_match(v.as_str(), fs[3].as_str()) {
                    return None;
                }
                let mut o: String = "defaults,subvol=".to_owned();
                o.append(v.as_str());
                o
            },
            None => {
                return None;
            },
        }
    } else {
        return None;
    };
    let device: String = match cut(fs[1].as_str(), '[') {
        Some((d, _)) => d,
        None => {
            proof {
                crate::text::search::lemma_first_index(f[1], '[');
                assert(up_to(f[1], '[') =~= f[1]);
            }
            fs[1].clone()
        },
    };
    if !starts_with(device.as_str(), "/dev/") {
        return None;
    }
    Some(VarMountCandidate { device, fstype: fs[2].clone(), options })
}

/// Whether an option is kept: `/var` must be writable and mounted.
pub open spec fn is_kept_option(o: Seq<char>) -> bool {
    o.len() > 0 && o != "ro"@ && o != "rw"@ && o != "noauto"@ && o != "nofail"@
}

/// The options that are kept.
pub open spec fn kept_options(options: Seq<Seq<char>>) -> Seq<Seq<char>>
    decreases options.len(),
{
    if options.len() == 0 {
        Seq::empty()
    } else if is_kept_option(options.last()) {
        kept_options(options.drop_last()).push(options.last())
    } else {
        kept_options(options.drop_last())
    }
}

/// Whether both name one subvolume, or neither names any.
pub open spec fn subvolumes_agree(a: Option<Seq<char>>, b: Option<Seq<char>>) -> bool {
    match a {
        Some(x) => b is Some && same_subvolume(x, b->0),
        None => b is None,
    }
}

/// The options of a line of `fstab`, if it is for the same mount.
pub open spec fn fstab_options_in(line: Seq<char>, c: VarMountCandidateView) -> Option<Seq<char>> {
    let l = trim_start(line);
    let f = fields(l);
    if begins(l, "#"@) || f.len() < 4 || f[1] != "/var"@ || f[2] != c.fstype && f[2] != "auto"@
        || !subvolumes_agree(
        subvolume(split(c.options, ',')),
        subvolume(split(f[3], ',')),
    ) {
        None
    } else {
        Some(join(seq!["rw"@] + kept_options(split(f[3], ',')), ","@))
    }
}

/// The options of the first line that is for the same mount.
pub open spec fn first_fstab_options(
    ls: Seq<Seq<char>>,
    c: VarMountCandidateView,
) -> Option<Seq<char>>
    decreases ls.len(),
{
    if ls.len() == 0 {
        None
    } else {
        match fstab_options_in(ls[0], c) {
            Some(o) => Some(o),
            None => first_fstab_options(ls.skip(1), c),
        }
    }
}

/// The options that are kept, with `rw` before them.
fn writable_options(options: &str) -> (r: String)
    ensures
        r@ == join(seq!["rw"@] + kept_options(split(options@, ',')), ","@),
{
    let parts: Vec<String> = split_at(options, ',');
    let ghost all = parts.deep_view();
    let mut kept: Vec<String> = Vec::new();
    kept.push("rw".to_owned());
    let mut i: usize = 0;
    assert(kept.deep_view() =~= seq!["rw"@] + kept_options(all.take(0)));
    while i < parts.len()
        invariant
            all == parts.deep_view(),
            i <= parts@.len(),
            kept.deep_view() == seq!["rw"@] + kept_options(all.take(i as int)),
        decreases parts@.len() - i,
    {
        proof {
            assert(all[i as int] == parts@[i as int]@);
            assert(all.take(i + 1).drop_last() =~= all.take(i as int));
            assert(all.take(i + 1).last() == all[i as int]);
        }
        let ghost before = kept.deep_view();
        let o: &str = parts[i].as_str();
        if !o.is_empty() && !same(o, "ro") && !same(o, "rw") && !same(o, "noauto") && !same(
            o,
            "nofail",
        ) {
            kept.push(parts[i].clone());
            assert(kept.deep_view() =~= before.push(all[i as int]));
            assert(kept.deep_view() =~= seq!["rw"@] + kept_options(all.take(i + 1)));
        }
        i = i + 1;
    }
    assert(all.take(i as int) =~= all);
    joined(kept.as_slice(), ",")
}

/// The options of a line of `fstab`, if it is for the same mount.
fn options_in_line(line: &str, candidate: &VarMountCandidate) -> (r: Option<String>)
    ensures
        r.deep_view() == fstab_options_in(line@, candidate.deep_view()),
{
    let l: String = trimmed_start(line);
    let fs: Vec<String> = fields_of(l.as_str());
    let ghost f = fs.deep_view();
    if starts_with(l.as_str(), "#") || fs.len() < 4 {
        return None;
    }
    assert(f[1] == fs@[1]@);
    assert(f[2] == fs@[2]@);
    assert(f[3] == fs@[3]@);
    if !same(fs[1].as_str(), "/var") || (!same(fs[2].as_str(), candidate.fstype.as_str()) && !same(
        fs[2].as_str(),
        "auto",
    )) {
        return None;
    }
    let expected: Option<String> = subvolume_of(candidate.options.as_str());
    let actual: Option<String> = subvolume_of(fs[3].as_str());
    let agree: bool = match (&expected, &actual) {
        (Some(a), Some(b)) => subvolumes_match(a.as_str(), b.as_str()),
        (None, None) => true,
        _ => false,
    };
    if !agree {
        return None;
    }
    Some(writable_options(fs[3].as_str()))
}

/// The administrator's own options for the mount, from the text of `fstab`:
/// those of the first entry with its type and subvolume.
pub fn parse_var_fstab_options(fstab: &str, candidate: &VarMountCandidate) -> (r: Option<String>)
    ensures
        r.deep_view() == first_fstab_options(lines(fstab@), candidate.deep_view()),
{
    let ls: Vec<String> = lines_of(fstab);
    let ghost all = ls.deep_view();
    let ghost c = candidate.deep_view();
    let mut i: usize = 0;
    assert(all.skip(0) =~= all);
    while i < ls.len()
        invariant
            all == ls.deep_view(),
            all == lines(fstab@),
            c == candidate.deep_view(),
            i <= ls@.len(),
            first_fstab_options(all, c) == first_fstab_options(all.skip(i as int), c),
        decreases ls@.len() - i,
    {
        proof {
            assert(all.skip(i as int)[0] == ls@[i as int]@);
            assert(all.skip(i as int).skip(1) =~= all.skip(i + 1));
        }
        match options_in_line(ls[i].as_str(), candidate) {
            Some(o) => {
                return Some(o);
            },
            None => {},
        }
        i = i + 1;
    }
    None
}

/// The identifier that `blkid` printed, if it printed one.
pub fn blkid_uuid(stdout: &str) -> (r: Option<String>)
    ensures
        r.deep_view() == (if trim(stdout@).len() == 0 {
            None
        } else {
            Some(trim(stdout@))
        }),
{
    let t: String = trimmed(stdout);
    if t.as_str().is_empty() {
        None
    } else {
        Some(t)
    }
}

/// The refusal of a mount whose device has no identifier.
pub open spec fn no_uuid(c: VarMountCandidateView) -> Seq<char> {
    "recognized /var as a dedicated "@ + c.fstype + " mount on "@ + c.device
        + ", but could not resolve its filesystem UUID; refusing to copy or stage an ambiguous /var layout"@
}

/// The volume of a candidate, with the administrator's options where `fstab`
/// has them. One without an identifier is refused: its layout is not clear.
pub fn resolve_var_mount(
    candidate: VarMountCandidate,
    uuid: Option<String>,
    fstab: Option<&str>,
) -> (r: Result<VarMount, String>)
    ensures
        ({
            let c = candidate.deep_view();
            match uuid.deep_view() {
                None => r is Err && r->Err_0@ == no_uuid(c),
                Some(u) => {
                    let own = match fstab {
                        Some(t) => first_fstab_options(lines(t@), c),
                        None => None,
                    };
                    r is Ok && r->Ok_0.deep_view() == (VarMountView {
                        uuid: u,
                        fstype: c.fstype,
                        options: match own {
                            Some(o) => o,
                            None => c.options,
                        },
                    })
                },
            }
        }),
{
    let uuid: String = match uuid {
        Some(u) => u,
        None => {
            let mut m: String = "recognized /var as a dedicated ".to_owned();
            m.append(candidate.fstype.as_str());
            m.append(" mount on ");
            m.append(candidate.device.as_str());
            m.append(
                ", but could not resolve its filesystem UUID; refusing to copy or stage an ambiguous /var layout",
            );
            return Err(m);
        },
    };
    let own: Option<String> = match fstab {
        Some(t) => parse_var_fstab_options(t, &candidate),
        None => None,
    };
    let options: String = match own {
        Some(o) => o,
        None => candidate.options,
    };
    Ok(VarMount { uuid, fstype: candidate.fstype, options })
}

/// The options with backslashes and colons escaped, a colon being what
/// separates the fields of the argument.
pub open spec fn escaped(options: Seq<char>) -> Seq<char> {
    replace_char(replace_char(options, '\\', "\\x5c"@), ':', "\\x3a"@)
}

/// The argument that mounts the volume at the stateroot.
pub open spec fn mount_argument(var: VarMountView) -> Seq<char> {
    "rd.systemd.mount-extra=/dev/disk/by-uuid/"@ + var.uuid + ":/sysroot/state/os/default/var:"@
        + var.fstype + ":"@ + escaped(var.options)
        + ",x-systemd.before=bootc-root-setup.service,x-systemd.required-by=bootc-root-setup.service"@
}

/// The argument that mounts the volume at the stateroot. Being on the kernel's
/// command line it passes on to every later deployment.
pub fn stateroot_var_mount_kernel_arg(var: &VarMount) -> (r: String)
    ensures
        r@ == mount_argument(var.deep_view()),
{
    let options: String = replaced_char(var.options.as_str(), '\\', "\\x5c");
    let options: String = replaced_char(options.as_str(), ':', "\\x3a");
    let mut s: String = "rd.systemd.mount-extra=/dev/disk/by-uuid/".to_owned();
    s.append(var.uuid.as_str());
    s.append(":/sysroot/state/os/default/var:");
    s.append(var.fstype.as_str());
    s.append(":");
    s.append(options.as_str());
    s.append(
        ",x-systemd.before=bootc-root-setup.service,x-systemd.required-by=bootc-root-setup.service",
    );
    s
}

/// Replacing a character by a text without it leaves none of it.
proof fn lemma_replaced(s: Seq<char>, c: char, with: Seq<char>, i: int)
    requires
        !with.contains(c),
        0 <= i < replace_char(s, c, with).len(),
    ensures
        replace_char(s, c, with)[i] != c,
    decreases s.len(),
{
    let d = s.drop_last();
    if i < replace_char(d, c, with).len() {
        lemma_replaced(d, c, with, i);
    } else if s.last() == c {
        assert(with[i - replace_char(d, c, with).len()] != c);
    }
}

/// No colon is left in the options, so the argument keeps its fields.
pub proof fn law_escaped_options_hold_no_colon(options: Seq<char>)
    ensures
        !escaped(options).contains(':'),
{
    reveal_strlit("\\x3a");
    let once = replace_char(options, '\\', "\\x5c"@);
    assert forall|i: int| 0 <= i < escaped(options).len() implies escaped(options)[i] != ':' by {
        lemma_replaced(once, ':', "\\x3a"@, i);
    }
}

/// Whatever `fstab` says, no option is kept that would leave the volume
/// unmounted or not writable.
pub proof fn law_kept_options_are_safe(options: Seq<Seq<char>>, i: int)
    requires
        0 <= i < kept_options(options).len(),
    ensures
        is_kept_option(kept_options(options)[i]),
        options.contains(kept_options(options)[i]),
    decreases options.len(),
{
    let d = options.drop_last();
    if i < kept_options(d).len() {
        law_kept_options_are_safe(d, i);
        let o = kept_options(d)[i];
        let j = choose|j: int| 0 <= j < d.len() && d[j] == o;
        assert(options[j] == o);
    } else {
        assert(options[options.len() - 1] == options.last());
    }
}

} // verus!
