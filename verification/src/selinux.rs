//! The SELinux configuration of a system.

use vstd::prelude::*;

verus! {

/// What `/etc/selinux/config` sets.
#[derive(Debug, Clone, PartialEq, Eq)]
pub struct SelinuxConfig {
    /// The mode: `enforcing`, `permissive` or `disabled`.
    pub selinux: Option<String>,
    /// The policy type, such as `targeted`.
    pub selinux_type: Option<String>,
}

/// What a [`SelinuxConfig`] holds.
#[verifier::ext_equal]
pub struct SelinuxConfigView {
    pub selinux: Option<Seq<char>>,
    pub selinux_type: Option<Seq<char>>,
}

impl DeepView for SelinuxConfig {
    type V = SelinuxConfigView;

    open spec fn deep_view(&self) -> SelinuxConfigView {
        SelinuxConfigView {
            selinux: self.selinux.deep_view(),
            selinux_type: self.selinux_type.deep_view(),
        }
    }
}

} // verus!
