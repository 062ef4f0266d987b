//! The fixed, ordered build phase sequence, and the debug options.

use vstd::prelude::*;

verus! {

/// One step of the build: each phase runs in a container of its own, in the
/// order `iter()` returns.
#[derive(Clone, Copy, Debug, PartialEq, Eq, Structural)]
pub enum Phases {
    /// Prepare for install: set up the package manager and other basics.
    Prepare,
    /// Run package installs in the bootstrap environment.
    Install,
    /// Polish the new installation: add and remove files.
    Polish,
    /// Test the image that is about to be generated.
    Test,
    /// Build artifacts from the image in the bootstrap environment.
    BuildArtifacts,
    /// Test the generated artifacts in the bootstrap environment.
    TestArtifacts,
}

pub open spec fn phase_name_spec(p: Phases) -> Seq<char> {
    match p {
        Phases::Prepare => "prepare"@,
        Phases::Install => "install"@,
        Phases::Polish => "polish"@,
        Phases::Test => "test"@,
        Phases::BuildArtifacts => "build_artifacts"@,
        Phases::TestArtifacts => "test_artifacts"@,
    }
}

pub open spec fn phase_upper_name_spec(p: Phases) -> Seq<char> {
    match p {
        Phases::Prepare => "PREPARE"@,
        Phases::Install => "INSTALL"@,
        Phases::Polish => "POLISH"@,
        Phases::Test => "TEST"@,
        Phases::BuildArtifacts => "BUILD_ARTIFACTS"@,
        Phases::TestArtifacts => "TEST_ARTIFACTS"@,
    }
}

/// A phase's position in the canonical order.
pub open spec fn phase_rank(p: Phases) -> int {
    match p {
        Phases::Prepare => 0,
        Phases::Install => 1,
        Phases::Polish => 2,
        Phases::Test => 3,
        Phases::BuildArtifacts => 4,
        Phases::TestArtifacts => 5,
    }
}

/// The rank orders the canonical sequence, covers every phase, and names
/// each phase uniquely.
pub proof fn lemma_phase_rank()
    ensures
        forall|k: int|
            0 <= k < phase_sequence_spec().len() ==> phase_rank(
                #[trigger] phase_sequence_spec()[k],
            ) == k,
        forall|p: Phases| 0 <= #[trigger] phase_rank(p) < phase_sequence_spec().len(),
        forall|p: Phases, q: Phases|
            #[trigger] phase_rank(p) == #[trigger] phase_rank(q) ==> p == q,
{
    assert(phase_sequence_spec()[0] == Phases::Prepare);
    assert(phase_sequence_spec()[1] == Phases::Install);
    assert(phase_sequence_spec()[2] == Phases::Polish);
    assert(phase_sequence_spec()[3] == Phases::Test);
    assert(phase_sequence_spec()[4] == Phases::BuildArtifacts);
    assert(phase_sequence_spec()[5] == Phases::TestArtifacts);
}

/// The canonical phase order.
pub open spec fn phase_sequence_spec() -> Seq<Phases> {
    seq![
        Phases::Prepare,
        Phases::Install,
        Phases::Polish,
        Phases::Test,
        Phases::BuildArtifacts,
        Phases::TestArtifacts,
    ]
}

impl Phases {
    /// The phases in the order the driver runs them: prepare, install,
    /// polish, test, build artifacts, test artifacts.
    pub fn iter() -> (r: Vec<Phases>)
        ensures
            r@ == phase_sequence_spec(),
    {
        let mut r: Vec<Phases> = Vec::new();
        r.push(Phases::Prepare);
        r.push(Phases::Install);
        r.push(Phases::Polish);
        r.push(Phases::Test);
        r.push(Phases::BuildArtifacts);
        r.push(Phases::TestArtifacts);
        proof {
            assert(r@ =~= phase_sequence_spec());
        }
        r
    }

    /// The lower-case name used on the command line and in the script.
    pub fn name(&self) -> (r: &'static str)
        ensures
            r@ == phase_name_spec(*self),
    {
        match self {
            Phases::Prepare => "prepare",
            Phases::Install => "install",
            Phases::Polish => "polish",
            Phases::Test => "test",
            Phases::BuildArtifacts => "build_artifacts",
            Phases::TestArtifacts => "test_artifacts",
        }
    }

    /// The upper-case name used for the script's phase constants.
    pub fn upper_name(&self) -> (r: &'static str)
        ensures
            r@ == phase_upper_name_spec(*self),
    {
        match self {
            Phases::Prepare => "PREPARE",
            Phases::Install => "INSTALL",
            Phases::Polish => "POLISH",
            Phases::Test => "TEST",
            Phases::BuildArtifacts => "BUILD_ARTIFACTS",
            Phases::TestArtifacts => "TEST_ARTIFACTS",
        }
    }
}

/// Debugging switches a build can carry.
#[derive(Clone, Copy, Debug, PartialEq, Eq, Structural)]
pub enum DebugOptions {
    /// Dump the build context before each phase.
    PrintBuildContext,
    /// Open the compiled agent script with `set -x`.
    TraceAgentScript,
    /// Echo the compiled agent script to the log sink.
    PrintAgentScript,
}

} // verus!
