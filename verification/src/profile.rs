//! Engine profiles: the target revision, the operating mode and the
//! compliance bar that a verification is judged against.
use vstd::prelude::*;

verus! {

/// Whether verification runs for the public or for conformance analysis.
#[derive(Debug, Clone, Copy, PartialEq, Eq, Structural)]
pub enum OperatingMode {
    Regular,
    Conformance,
}

/// The bar that recommendations are held to.
#[derive(Debug, Clone, Copy, PartialEq, Eq, Structural)]
pub enum ComplianceLevel {
    CoreSpec,
    ConformanceProgram,
}

/// A revision of the C2PA technical specification.
#[derive(Debug, Clone, Copy, PartialEq, Eq, Structural)]
pub enum SpecVersion {
    V2_2,
    V2_4,
}

/// The claim generation that a manifest was written in.
#[derive(Debug, Clone, Copy, PartialEq, Eq, Structural)]
pub enum ClaimGeneration {
    V1,
    V2,
}

/// Target revision, mode and compliance bar of one verification.
#[derive(Debug, Clone, Copy, PartialEq, Eq, Structural)]
pub struct EngineProfile {
    pub version: SpecVersion,
    pub mode: OperatingMode,
    pub compliance: ComplianceLevel,
    /// Whether the host runs in debug mode. No result of a verification depends on
    /// it.
    pub debug: bool,
}

/// The regular mode together with the core-specification bar.
pub open spec fn generous(profile: EngineProfile) -> bool {
    profile.mode == OperatingMode::Regular && profile.compliance == ComplianceLevel::CoreSpec
}

/// True for the generous posture; every other profile stays strict.
pub fn is_generous(profile: EngineProfile) -> (r: bool)
    ensures
        r == generous(profile),
{
    profile.mode == OperatingMode::Regular && profile.compliance == ComplianceLevel::CoreSpec
}

impl EngineProfile {
    /// The generous posture.
    pub fn generous() -> (r: EngineProfile)
        ensures
            generous(r),
            r.version == SpecVersion::V2_4,
            !r.debug,
    {
        EngineProfile {
            version: SpecVersion::V2_4,
            mode: OperatingMode::Regular,
            compliance: ComplianceLevel::CoreSpec,
            debug: false,
        }
    }

    /// Conformance analysis against revision 2.2.
    pub fn conformance_v2_2() -> (r: EngineProfile)
        ensures
            r.mode == OperatingMode::Conformance,
            r.compliance == ComplianceLevel::ConformanceProgram,
            r.version == SpecVersion::V2_2,
            !r.debug,
    {
        EngineProfile {
            version: SpecVersion::V2_2,
            mode: OperatingMode::Conformance,
            compliance: ComplianceLevel::ConformanceProgram,
            debug: false,
        }
    }

    pub open spec fn spec_version_text(self) -> Seq<char> {
        match self.version {
            SpecVersion::V2_2 => "2.2"@,
            SpecVersion::V2_4 => "2.4"@,
        }
    }

    /// The target revision as text.
    pub fn version_str(self) -> (r: &'static str)
        ensures
            r@ == self.spec_version_text(),
    {
        match self.version {
            SpecVersion::V2_2 => "2.2",
            SpecVersion::V2_4 => "2.4",
        }
    }
}

// ---------------------------------------------------------------------------
// Laws
// ---------------------------------------------------------------------------


/// The generous posture is never that of conformance analysis, nor of the
/// conformance program, and of no other two choices does it depend: the target
/// revision and the debug switch leave it alone.
pub proof fn conformance_is_always_strict(p: EngineProfile, q: EngineProfile)
    ensures
        p.mode == OperatingMode::Conformance ==> !generous(p),
        p.compliance == ComplianceLevel::ConformanceProgram ==> !generous(p),
        !generous(p) ==> p.mode == OperatingMode::Conformance || p.compliance
            == ComplianceLevel::ConformanceProgram,
        p.mode == q.mode && p.compliance == q.compliance ==> generous(p) == generous(q),
{
}

} // verus!
