//! Which re-bases are supported, and how each is carried out.
//!
//! The table of routes is a safety surface: every caller consults it before it
//! touches the system.

use vstd::prelude::*;

use crate::text::compose::{join, joined};

verus! {

/// How a root filesystem is stored.
#[derive(Debug, Clone, Copy, PartialEq, Eq, Structural)]
pub enum Backend {
    /// A checkout of an OSTree commit.
    Ostree,
    /// A sealed EROFS image.
    Composefs,
}

/// The name of a backend.
pub open spec fn backend_name(b: Backend) -> Seq<char> {
    match b {
        Backend::Ostree => "ostree"@,
        Backend::Composefs => "composefs"@,
    }
}

impl Backend {
    /// The name of the backend.
    pub fn name(&self) -> (r: String)
        ensures
            r@ == backend_name(*self),
    {
        match self {
            Backend::Ostree => "ostree".to_owned(),
            Backend::Composefs => "composefs".to_owned(),
        }
    }
}

/// How a transition is carried out.
#[derive(Debug, Clone, Copy, PartialEq, Eq, Structural)]
pub enum Strategy {
    /// The conversion from OSTree to composefs.
    CoreMigration,
    /// Another composefs image, with no conversion.
    ImageSwap,
    /// A plain OSTree deployment of the target.
    OstreeDeploy,
}

/// A phase of a re-base.
#[derive(Debug, Clone, Copy, PartialEq, Eq, Structural)]
pub enum Phase {
    Preflight,
    Import,
    Pull,
    Seal,
    Deploy,
    Bootloader,
}

/// The name of a phase.
pub open spec fn phase_name(p: Phase) -> Seq<char> {
    match p {
        Phase::Preflight => "preflight"@,
        Phase::Import => "import"@,
        Phase::Pull => "pull"@,
        Phase::Seal => "seal"@,
        Phase::Deploy => "deploy"@,
        Phase::Bootloader => "bootloader"@,
    }
}

/// Where a phase stands among the others.
pub open spec fn phase_rank(p: Phase) -> int {
    match p {
        Phase::Preflight => 0,
        Phase::Import => 1,
        Phase::Pull => 2,
        Phase::Seal => 3,
        Phase::Deploy => 4,
        Phase::Bootloader => 5,
    }
}

impl Phase {
    /// The name of the phase.
    pub fn name(&self) -> (r: String)
        ensures
            r@ == phase_name(*self),
    {
        match self {
            Phase::Preflight => "preflight".to_owned(),
            Phase::Import => "import".to_owned(),
            Phase::Pull => "pull".to_owned(),
            Phase::Seal => "seal".to_owned(),
            Phase::Deploy => "deploy".to_owned(),
            Phase::Bootloader => "bootloader".to_owned(),
        }
    }
}

/// Whose bootloader the system has afterwards.
#[derive(Debug, Clone, Copy, PartialEq, Eq, Structural)]
pub enum BootloaderPolicy {
    KeepSource,
    Target,
}

/// A transition between backends.
#[derive(Debug, Clone, Copy, PartialEq, Eq, Structural)]
pub struct Route {
    pub from: Backend,
    pub to: Backend,
    pub strategy: Strategy,
    /// Whether it can be carried out today.
    pub implemented: bool,
}

/// What a transition consists of. Making one touches nothing.
#[derive(Debug, Clone, PartialEq, Eq)]
pub struct RebasePlan {
    pub route: Route,
    pub phases: Vec<Phase>,
    pub bootloader: BootloaderPolicy,
}

/// The names of the phases.
pub open spec fn names_of(phases: Seq<Phase>) -> Seq<Seq<char>> {
    phases.map_values(|p: Phase| phase_name(p))
}

impl RebasePlan {
    /// The phases in order, with an arrow between two of them.
    pub fn phase_names(&self) -> (r: String)
        ensures
            r@ == join(names_of(self.phases@), " -> "@),
    {
        let mut names: Vec<String> = Vec::new();
        let mut i: usize = 0;
        while i < self.phases.len()
            invariant
                i <= self.phases@.len(),
                names.deep_view() == names_of(self.phases@).take(i as int),
            decreases self.phases@.len() - i,
        {
            let ghost before = names.deep_view();
            let n: String = self.phases[i].name();
            names.push(n);
            proof {
                assert(names.deep_view() =~= before.push(n@));
                assert(names.deep_view() =~= names_of(self.phases@).take(i + 1));
            }
            i = i + 1;
        }
        assert(names_of(self.phases@).take(i as int) =~= names_of(self.phases@));
        joined(names.as_slice(), " -> ")
    }
}

/// How the transition is carried out.
pub open spec fn strategy_for(from: Backend, to: Backend) -> Strategy {
    match to {
        Backend::Ostree => Strategy::OstreeDeploy,
        Backend::Composefs => match from {
            Backend::Ostree => Strategy::CoreMigration,
            Backend::Composefs => Strategy::ImageSwap,
        },
    }
}

/// The route between two backends. Only the way back from composefs to OSTree
/// is not carried out yet.
pub open spec fn route_between(from: Backend, to: Backend) -> Route {
    Route {
        from,
        to,
        strategy: strategy_for(from, to),
        implemented: !(from == Backend::Composefs && to == Backend::Ostree),
    }
}

/// The route between two backends. There is one for every pair.
pub fn route(from: Backend, to: Backend) -> (r: Option<Route>)
    ensures
        r == Some(route_between(from, to)),
{
    let strategy: Strategy = match to {
        Backend::Ostree => Strategy::OstreeDeploy,
        Backend::Composefs => match from {
            Backend::Ostree => Strategy::CoreMigration,
            Backend::Composefs => Strategy::ImageSwap,
        },
    };
    Some(
        Route {
            from,
            to,
            strategy,
            implemented: !(from == Backend::Composefs && to == Backend::Ostree),
        },
    )
}

/// The phases of the transition.
pub open spec fn phases_between(from: Backend, to: Backend) -> Seq<Phase> {
    match from {
        Backend::Ostree => match to {
            Backend::Ostree => seq![Phase::Preflight, Phase::Pull, Phase::Deploy],
            Backend::Composefs => seq![
                Phase::Preflight,
                Phase::Import,
                Phase::Pull,
                Phase::Seal,
                Phase::Deploy,
                Phase::Bootloader,
            ],
        },
        Backend::Composefs => match to {
            Backend::Composefs => seq![Phase::Preflight, Phase::Pull, Phase::Deploy],
            Backend::Ostree => seq![
                Phase::Preflight,
                Phase::Pull,
                Phase::Deploy,
                Phase::Bootloader,
            ],
        },
    }
}

/// Whose bootloader the system has after the transition.
pub open spec fn bootloader_between(from: Backend, to: Backend) -> BootloaderPolicy {
    if from == to {
        BootloaderPolicy::KeepSource
    } else {
        BootloaderPolicy::Target
    }
}

/// The plan for a pair of backends: its route, phases and bootloader.
pub fn plan(from: Backend, to: Backend) -> (r: Option<RebasePlan>)
    ensures
        r matches Some(p) && p.route == route_between(from, to) && p.phases@ == phases_between(
            from,
            to,
        ) && p.bootloader == bootloader_between(from, to),
{
    match route(from, to) {
        Some(found) => {
            let mut phases: Vec<Phase> = Vec::new();
            phases.push(Phase::Preflight);
            let converts: bool = from == Backend::Ostree && to == Backend::Composefs;
            if converts {
                phases.push(Phase::Import);
            }
            phases.push(Phase::Pull);
            if converts {
                phases.push(Phase::Seal);
            }
            phases.push(Phase::Deploy);
            if from != to {
                phases.push(Phase::Bootloader);
            }
            assert(phases@ =~= phases_between(from, to));
            let bootloader: BootloaderPolicy = if from == to {
                BootloaderPolicy::KeepSource
            } else {
                BootloaderPolicy::Target
            };
            Some(RebasePlan { route: found, phases, bootloader })
        },
        None => None,
    }
}

/// The plan of a bootloader change alone: one phase, and none that touches the
/// root filesystem.
pub fn bootloader_plan() -> (r: RebasePlan)
    ensures
        r.route == (Route {
            from: Backend::Ostree,
            to: Backend::Composefs,
            strategy: Strategy::CoreMigration,
            implemented: false,
        }),
        r.phases@ == seq![Phase::Bootloader],
        r.bootloader == BootloaderPolicy::Target,
{
    let mut phases: Vec<Phase> = Vec::new();
    phases.push(Phase::Bootloader);
    assert(phases@ =~= seq![Phase::Bootloader]);
    RebasePlan {
        route: Route {
            from: Backend::Ostree,
            to: Backend::Composefs,
            strategy: Strategy::CoreMigration,
            implemented: false,
        },
        phases,
        bootloader: BootloaderPolicy::Target,
    }
}

/// Every plan starts with the preflight, ends with the deployment or the
/// bootloader, and has each phase once and in order.
pub proof fn law_phases_are_in_order(from: Backend, to: Backend)
    ensures
        phases_between(from, to).first() == Phase::Preflight,
        phases_between(from, to).last() == Phase::Deploy || phases_between(from, to).last()
            == Phase::Bootloader,
        forall|i: int, j: int|
            0 <= i < j < phases_between(from, to).len() ==> phase_rank(
                #[trigger] phases_between(from, to)[i],
            ) < phase_rank(#[trigger] phases_between(from, to)[j]),
{
}

/// Objects are imported and sealed exactly where OSTree is converted to
/// composefs.
pub proof fn law_only_the_conversion_seals(from: Backend, to: Backend)
    ensures
        phases_between(from, to).contains(Phase::Seal) <==> from == Backend::Ostree && to
            == Backend::Composefs,
        phases_between(from, to).contains(Phase::Import) <==> phases_between(from, to).contains(
            Phase::Seal,
        ),
{
    let ps = phases_between(from, to);
    if from == Backend::Ostree && to == Backend::Composefs {
        assert(ps[1] == Phase::Import);
        assert(ps[3] == Phase::Seal);
    }
}

/// The bootloader is replaced exactly where the plan has a phase for it.
pub proof fn law_bootloader_follows_the_phases(from: Backend, to: Backend)
    ensures
        bootloader_between(from, to) == BootloaderPolicy::Target <==> phases_between(
            from,
            to,
        ).contains(Phase::Bootloader),
{
    let ps = phases_between(from, to);
    if from != to {
        assert(ps[ps.len() - 1] == Phase::Bootloader);
    }
}

} // verus!
