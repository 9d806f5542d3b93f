# bootc_migrate_core

The decisions behind moving a bootc host between images and storage backends,
verified with Verus: which boot entries may be cleaned up, what a re-base between
bases or families does to `/etc` and to file ownership, how a bootloader is
changed and changed back, and what a migration from OSTree to composefs does, step
by step.

## Layout

- `src/` is the library. Every function states in its contract what it returns,
  and the public proof functions named `law_…` state what holds across functions.
  - `boot_audit`, `boot_cleanup`: firmware entries, the plan that removes or
    renames them, and the way back.
  - `cross_base`, `cross_family`, `remap`, `etc_conflict`, `mergetc`, `scan`,
    `selinux`: re-bases onto another base or family.
  - `de_detect`, `de_migrate`, `de_controller`: desktops and their users'
    configuration.
  - `migration`: the conversion to composefs, its phases, and the bootloader.
  - `ostree_install`, `rebase_plan`, `rebase_controller`: the routes between
    backends.
  - `preflight`: what is known of a system before a migration, and the verdict.
  - `ini`, `json`: what the library takes from the `tini` and `serde_json` crates.
  - `steps`, `text`, `verity`, `runlog`: steps as values, and text.
- `app/` carries the plans out on a live system: files, commands, mounts and
  records on disk.
- `tests/` runs the library on concrete inputs.

Procedures that change the system are values: lists of steps, or stages with a
function from one stage to the next. The library decides what they are, and the
code in `app/` performs them.

## What is trusted

The contracts in `src/ini.rs` and `src/json.rs` describe `tini` and `serde_json`.
That of `quoted` in `src/text/quote.rs` names the text of `{:?}`, and
`src/text/chars.rs` specifies `String::push`. Everything else is proved.
