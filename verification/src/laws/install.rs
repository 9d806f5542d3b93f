//! Laws of the install of an OSTree deployment beside a composefs one.

use vstd::prelude::*;

use crate::ostree_install::{
    absent, bind_plan, carried_kargs, composefs_owned, container_args, has_kernel, install_args,
    install_argv, install_moves, install_refusal, karg_args, newest, owned_paths, podman_reference,
    stage_after, stage_at, InstallMove, InstallStage,
};
use crate::text::pieces::trim_start_char;
use crate::text::search::{begins, finishes, holds};

verus! {

proof fn lemma_karg_args(kargs: Seq<Seq<char>>, i: int)
    ensures
        karg_args(kargs).len() == 2 * kargs.len(),
        0 <= i < kargs.len() ==> karg_args(kargs)[2 * i] == "--karg"@ && karg_args(kargs)[2 * i + 1]
            == kargs[i],
    decreases kargs.len(),
{
    if kargs.len() > 0 {
        lemma_karg_args(kargs.drop_last(), i);
    }
}

/// The image's own bootc installs it to the physical root that is mounted at
/// `/target`, and every kernel argument is handed to it, in order, as one.
pub proof fn law_install_command(image: Seq<char>, kargs: Seq<Seq<char>>, i: int)
    ensures
        ({
            let a = install_argv(image, kargs);
            let at = a.len() - 2 * kargs.len() - 1;
            &&& a.last() == "/target"@
            &&& 0 <= i < kargs.len() ==> a[at + 2 * i] == "--karg"@ && a[at + 2 * i + 1] == kargs[i]
            &&& a.subrange(at - 6, at) == seq![
                image,
                "bootc"@,
                "install"@,
                "to-existing-root"@,
                "--acknowledge-destructive"@,
                "--skip-fetch-check"@,
            ]
            &&& a.subrange(at - 8, at - 6) == seq![
                "--mount"@,
                "type=bind,src=/sysroot,dst=/target,bind-propagation=rslave"@,
            ]
            &&& a.take(5) == seq!["podman"@, "run"@, "--rm"@, "--privileged"@, "--pid=host"@]
        }),
{
    lemma_karg_args(kargs, i);
    let a = install_argv(image, kargs);
    let at = a.len() - 2 * kargs.len() - 1;
    assert(container_args().len() == 17);
    assert(install_args().len() == 5);
    assert(at == 23);
    assert(a.subrange(at - 6, at) =~= seq![image] + install_args());
    assert(a.subrange(at - 6, at) =~= seq![
        image,
        "bootc"@,
        "install"@,
        "to-existing-root"@,
        "--acknowledge-destructive"@,
        "--skip-fetch-check"@,
    ]);
    assert(a.subrange(at - 8, at - 6) =~= seq![
        "--mount"@,
        "type=bind,src=/sysroot,dst=/target,bind-propagation=rslave"@,
    ]);
    assert(a.take(5) =~= seq!["podman"@, "run"@, "--rm"@, "--privileged"@, "--pid=host"@]);
}

/// What belongs to the composefs deployment on the partition: its kernels, its
/// loader, and the loader's configuration and entries; with slashes before it or
/// none.
pub proof fn law_what_belongs_to_composefs(rel: Seq<char>, x: Seq<char>)
    ensures
        composefs_owned("EFI/Linux/bootc_composefs-"@ + x),
        composefs_owned("EFI/systemd/"@ + x),
        composefs_owned("loader/loader.conf"@),
        composefs_owned("loader/entries/"@ + x + ".conf"@),
        composefs_owned(seq!['/'] + rel) == composefs_owned(rel),
        composefs_owned(rel) && rel.len() > 0 && rel[0] != '/' ==> begins(
            rel,
            "EFI/Linux/bootc_composefs-"@,
        ) || begins(rel, "EFI/systemd/"@) || rel == "loader/loader.conf"@ || begins(
            rel,
            "loader/entries/"@,
        ) && finishes(rel, ".conf"@),
{
    reveal_strlit("EFI/Linux/bootc_composefs-");
    reveal_strlit("EFI/systemd/");
    reveal_strlit("loader/loader.conf");
    reveal_strlit("loader/entries/");
    reveal_strlit(".conf");
    let a = "EFI/Linux/bootc_composefs-"@;
    assert((a + x)[0] == a[0]);
    assert((a + x).take(a.len() as int) =~= a);
    let b = "EFI/systemd/"@;
    assert((b + x)[0] == b[0]);
    assert((b + x).take(b.len() as int) =~= b);
    let c = "loader/entries/"@;
    let d = c + x + ".conf"@;
    assert(d[0] == c[0]);
    assert(d.take(c.len() as int) =~= c);
    assert(d.skip(d.len() - 5) =~= ".conf"@);
    assert((seq!['/'] + rel).skip(1) =~= rel);
}

/// The files that are saved are those that belong to the composefs deployment,
/// without the slashes before them.
pub proof fn law_owned_files_are_found(listing: Seq<Seq<char>>)
    ensures
        owned_paths(listing) == listing.filter(|p: Seq<char>| composefs_owned(p)).map_values(
            |p: Seq<char>| trim_start_char(p, '/'),
        ),
    decreases listing.len(),
{
    reveal(Seq::filter);
    let f = |p: Seq<char>| composefs_owned(p);
    let g = |p: Seq<char>| trim_start_char(p, '/');
    if listing.len() > 0 {
        let d = listing.drop_last();
        law_owned_files_are_found(d);
        assert(d.filter(f).push(listing.last()).map_values(g) =~= d.filter(f).map_values(g).push(
            g(listing.last()),
        ));
    } else {
        assert(owned_paths(listing) =~= listing.filter(f).map_values(g));
    }
}

/// Whether the name is a checksum with the serial zero.
pub open spec fn is_first_deployment(name: Seq<char>) -> bool {
    finishes(name, ".0"@) && name.len() > 2
}

/// Whether the entry at the index is the latest of the first deployments, and the
/// last of them.
pub open spec fn is_newest(e: Seq<(Seq<char>, u64)>, i: int) -> bool {
    &&& 0 <= i < e.len()
    &&& is_first_deployment(e[i].0)
    &&& forall|j: int| 0 <= j < e.len() && is_first_deployment((#[trigger] e[j]).0) ==> e[j].1
        <= e[i].1
    &&& forall|j: int| i < j < e.len() && is_first_deployment((#[trigger] e[j]).0) ==> e[j].1 < e[i].1
}

/// The new deployment is the latest of the first deployments, the last of several
/// of one time; there is none where there is no first deployment.
pub proof fn law_newest_deployment(e: Seq<(Seq<char>, u64)>, i: int)
    ensures
        is_newest(e, i) ==> newest(e) == Some(e[i]),
        newest(e) is None <==> forall|j: int|
            0 <= j < e.len() ==> !is_first_deployment((#[trigger] e[j]).0),
{
    lemma_newest(e);
    if newest(e) is Some && is_newest(e, i) {
        let k = choose|k: int| is_newest(e, k) && e[k] == newest(e)->0;
        assert(e[i].1 <= e[k].1);
        assert(e[k].1 <= e[i].1);
        assert(i == k);
    }
}

proof fn lemma_newest(e: Seq<(Seq<char>, u64)>)
    ensures
        newest(e) is None <==> forall|j: int|
            0 <= j < e.len() ==> !is_first_deployment((#[trigger] e[j]).0),
        newest(e) is Some ==> exists|k: int| #[trigger] is_newest(e, k) && e[k] == newest(e)->0,
    decreases e.len(),
{
    if e.len() > 0 {
        let d = e.drop_last();
        let n = e.len() - 1;
        lemma_newest(d);
        assert(e[n] == e.last());
        assert forall|j: int| 0 <= j < n implies #[trigger] e[j] == d[j] by {}
        let best = newest(d);
        if best is Some {
            let k = choose|k: int| #[trigger] is_newest(d, k) && d[k] == best->0;
            assert(e[k] == d[k]);
            if is_first_deployment(e.last().0) && e.last().1 >= d[k].1 {
                assert(is_newest(e, n));
            } else {
                assert(is_newest(e, k));
            }
        } else {
            assert forall|j: int| 0 <= j < n implies !is_first_deployment((#[trigger] e[j]).0) by {
                assert(e[j] == d[j]);
            }
            if is_first_deployment(e.last().0) {
                assert(is_newest(e, n));
            }
        }
    }
}

/// The arguments for the console, for volumes and encryption, and for the level of
/// the log are carried over, each as it is and in its order, and no others.
pub proof fn law_carried_arguments(words: Seq<Seq<char>>)
    ensures
        carried_kargs(words) == words.filter(
            |w: Seq<char>|
                begins(w, "console="@) || begins(w, "rd.lvm.lv="@) || begins(w, "rd.luks."@)
                    || begins(w, "systemd.log_level="@),
        ),
    decreases words.len(),
{
    reveal(Seq::filter);
    if words.len() > 0 {
        law_carried_arguments(words.drop_last());
    }
}

/// An install goes on exactly on a UEFI host with both tools, which was booted
/// from composefs and has no OSTree deployment; only these last two may be
/// insisted past.
pub proof fn law_when_an_install_is_refused(
    cmdline: Seq<char>,
    uefi: bool,
    has_podman: bool,
    has_efibootmgr: bool,
    existing: Seq<Seq<char>>,
    force: bool,
)
    ensures
        install_refusal(cmdline, uefi, has_podman, has_efibootmgr, existing, force) is None <==> uefi
            && has_podman && has_efibootmgr && (force || holds(cmdline, "composefs="@)
            && existing.len() == 0),
{
}

/// The family is looked at, and the target unless that is skipped; then the
/// partition and the booted image are found. A dry run ends by showing what would
/// be done; otherwise sleep is held off and the stages begin with the pull.
pub proof fn law_way_to_the_stages(dry_run: bool, skip_preflight: bool, accepted: bool)
    ensures
        ({
            let m = install_moves(dry_run, skip_preflight, accepted);
            let s: int = if skip_preflight {
                0
            } else {
                1
            };
            &&& m[0] == InstallMove::GateFamily { accepted }
            &&& !skip_preflight ==> m[1] is CheckCapabilities
            &&& m[1 + s] is LocateEsp
            &&& m[2 + s] is FindBootedImage
            &&& dry_run ==> m.len() == 4 + s && m.last() is Preview
            &&& !dry_run ==> m.len() == 5 + s && m[3 + s] is InhibitSleep && m.last()
                == InstallMove::Stages(InstallStage::Pull)
        }),
{
}

/// A stage that fails ends the run, but for the three that may: the remount, the
/// unbinding, and what is done at the end.
pub proof fn law_when_a_run_fails(s: InstallStage, cross_family: bool)
    ensures
        stage_after(s, false, cross_family) is Failed <==> !(s is RemountRoot || s is UnbindBoot || s
            is Finished),
        s is RemountRoot || s is UnbindBoot || s is Finished ==> stage_after(s, false, cross_family)
            == stage_after(s, true, cross_family),
        stage_after(s, true, cross_family) is Failed <==> s is Failed,
{
}

/// A run whose stages all succeed pulls the image, saves the partition, installs,
/// merges `/etc`, carries `/var` over, and restores the partition before it sets
/// the boot order. Between families one stage more stands behind `/var`.
pub proof fn law_run_that_succeeds(cross_family: bool)
    ensures
        ({
            let at = |n: nat| stage_at(Seq::new(n, |i: int| true), cross_family);
            let f: nat = if cross_family {
                1
            } else {
                0
            };
            &&& at(0) is Pull
            &&& at(1) is SnapshotEsp
            &&& at(2) is RemountRoot
            &&& at(3) is BindBoot
            &&& at(4) is Install
            &&& at(5) is UnbindBoot
            &&& at(6) is FindDeployment
            &&& at(7) is MergeEtc
            &&& at(8) is CopyVar
            &&& cross_family ==> at(9) is PostMerge
            &&& at(9 + f) is RestoreEsp
            &&& at(10 + f) is OrderNvram
            &&& at(11 + f) is WriteReport
            &&& at(12 + f) is Finished
        }),
{
    lemma_one_stage(0, cross_family);
    lemma_one_stage(1, cross_family);
    lemma_one_stage(2, cross_family);
    lemma_one_stage(3, cross_family);
    lemma_one_stage(4, cross_family);
    lemma_one_stage(5, cross_family);
    lemma_one_stage(6, cross_family);
    lemma_one_stage(7, cross_family);
    lemma_one_stage(8, cross_family);
    lemma_one_stage(9, cross_family);
    lemma_one_stage(10, cross_family);
    lemma_one_stage(11, cross_family);
    lemma_one_stage(12, cross_family);
}

proof fn lemma_one_stage(n: nat, cross_family: bool)
    ensures
        stage_at(Seq::new(0, |i: int| true), cross_family) is Pull,
        stage_at(Seq::new(n + 1, |i: int| true), cross_family) == stage_after(
            stage_at(Seq::new(n, |i: int| true), cross_family),
            true,
            cross_family,
        ),
{
    let s = Seq::new(n + 1, |i: int| true);
    assert(s.drop_last() =~= Seq::new(n, |i: int| true));
    assert(s.last());
}

/// What is restored is what is not there, in its order.
pub proof fn law_what_is_gone_is_restored(paths: Seq<Seq<char>>, present: Seq<Seq<char>>)
    ensures
        absent(paths, present) == paths.filter(|p: Seq<char>| !present.contains(p)),
    decreases paths.len(),
{
    reveal(Seq::filter);
    if paths.len() > 0 {
        law_what_is_gone_is_restored(paths.drop_last(), present);
    }
}

/// The partition is bound to `boot/efi` wherever it is mounted. Where it is
/// mounted at `/boot` nothing else is bound; otherwise `/boot` is bound where it
/// is mounted, and before what lies below it.
pub proof fn law_what_is_bound(esp: Seq<char>, live: Seq<Seq<char>>)
    ensures
        ({
            let p = bind_plan(esp, live);
            &&& esp == "/boot"@ ==> p == seq![(esp, "boot/efi"@)]
            &&& esp != "/boot"@ ==> {
                &&& live.contains(esp) ==> p.contains((esp, "boot/efi"@))
                &&& p.contains(("/boot"@, "boot"@)) <==> live.contains("/boot"@)
                &&& live.contains("/boot"@) ==> p[0] == ("/boot"@, "boot"@)
                &&& p.contains(("/boot/efi"@, "boot/efi"@)) <==> live.contains("/boot/efi"@)
                &&& forall|i: int|
                    0 <= i < p.len() ==> live.contains((#[trigger] p[i]).0) && (p[i].0 == "/boot"@
                        || p[i].1 == "boot/efi"@)
            }
        }),
{
    reveal_strlit("/boot");
    reveal_strlit("/boot/efi");
    reveal_strlit("boot");
    reveal_strlit("boot/efi");
    assert("/boot"@.len() != "/boot/efi"@.len());
    let p = bind_plan(esp, live);
    if esp != "/boot"@ {
        let a: int = if live.contains("/boot"@) {
            1
        } else {
            0
        };
        let b: int = if live.contains("/boot/efi"@) {
            1
        } else {
            0
        };
        if live.contains("/boot"@) {
            assert(p[0] == ("/boot"@, "boot"@));
        }
        if live.contains("/boot/efi"@) {
            assert(p[a] == ("/boot/efi"@, "boot/efi"@));
        }
        if esp != "/boot/efi"@ && live.contains(esp) {
            assert(p[a + b] == (esp, "boot/efi"@));
        }
    } else {
        assert(p =~= seq![(esp, "boot/efi"@)]);
    }
}

/// The booted image goes by its name without its transport, and one that has none
/// by its own.
pub proof fn law_name_of_the_booted_image(image: Seq<char>)
    ensures
        podman_reference("docker://"@ + image) == image,
        podman_reference("ostree-unverified-image:docker://"@ + image) == image,
        podman_reference("ostree-unverified-registry:"@ + image) == image,
        !begins(image, "docker://"@) && !begins(image, "ostree-unverified-"@) ==> podman_reference(
            image,
        ) == image,
{
    reveal_strlit("docker://");
    reveal_strlit("ostree-unverified-image:docker://");
    reveal_strlit("ostree-unverified-registry:");
    reveal_strlit("ostree-unverified-");
    let a = "docker://"@;
    let b = "ostree-unverified-image:docker://"@;
    let c = "ostree-unverified-registry:"@;
    let d = "ostree-unverified-"@;
    assert((a + image).take(a.len() as int) =~= a);
    assert((a + image).skip(a.len() as int) =~= image);
    assert((b + image).take(b.len() as int) =~= b);
    assert((b + image).skip(b.len() as int) =~= image);
    assert((c + image).take(c.len() as int) =~= c);
    assert((c + image).skip(c.len() as int) =~= image);
    assert((b + image).take(a.len() as int)[0] == 'o');
    assert((c + image).take(a.len() as int)[0] == 'o');
    assert(a[0] == 'd');
    assert(b[18] == 'i');
    assert((c + image)[18] == 'r');
    if begins(c + image, b) {
        assert((c + image).take(b.len() as int)[18] == b[18]);
    }
    if begins(image, b) {
        assert(image.take(d.len() as int) =~= image.take(b.len() as int).take(d.len() as int));
        assert(b.take(d.len() as int) =~= d);
    }
    if begins(image, c) {
        assert(image.take(d.len() as int) =~= image.take(c.len() as int).take(d.len() as int));
        assert(c.take(d.len() as int) =~= d);
    }
}

/// What was saved can be booted where a kernel of the composefs deployment is
/// among it.
pub proof fn law_saved_files_can_be_booted(paths: Seq<Seq<char>>, i: int)
    ensures
        0 <= i < paths.len() && begins(paths[i], "EFI/Linux/bootc_composefs-"@) ==> has_kernel(
            paths,
        ),
        (forall|k: int|
            0 <= k < paths.len() ==> !begins(#[trigger] paths[k], "EFI/Linux/bootc_composefs-"@))
            ==> !has_kernel(paths),
{
}

} // verus!
