use vstd::prelude::*;

verus! {

/// The first build of the system that has the efficiency power hint.
pub const FIRST_ECOQOS_BUILD: u32 = 21359;

/// The first build on which the hint takes its full effect.
pub const FULL_ECOQOS_BUILD: u32 = 22621;

/// How well a build of the system supports the efficiency power hint.
#[derive(Clone, Copy, Debug, PartialEq, Eq, Structural)]
pub enum OsSupport {
    /// The hint does not exist: the governor cannot run.
    Unsupported,
    /// The hint exists but is not fully effective.
    Limited,
    /// The hint takes its full effect.
    Full,
}

/// The support that the system build `build` gives.
pub fn os_support(build: u32) -> (r: OsSupport)
    ensures
        r == if build < FIRST_ECOQOS_BUILD {
            OsSupport::Unsupported
        } else if build < FULL_ECOQOS_BUILD {
            OsSupport::Limited
        } else {
            OsSupport::Full
        },
{
    if build < FIRST_ECOQOS_BUILD {
        OsSupport::Unsupported
    } else if build < FULL_ECOQOS_BUILD {
        OsSupport::Limited
    } else {
        OsSupport::Full
    }
}

} // verus!
