//! Decision logic for moving a bootc host between its OSTree and composefs
//! root filesystem backends, and between images.

pub mod boot_audit;
pub mod boot_cleanup;
pub mod cross_base;
pub mod cross_family;
pub mod de_controller;
pub mod de_detect;
pub mod de_migrate;
pub mod etc_conflict;
pub mod ini;
pub mod json;
pub mod laws;
pub mod mergetc;
pub mod migration;
pub mod ostree_install;
pub mod preflight;
pub mod rebase_controller;
pub mod rebase_plan;
pub mod remap;
pub mod runlog;
pub mod scan;
pub mod selinux;
pub mod steps;
pub mod text;
pub mod verity;
