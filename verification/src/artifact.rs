//! Release artifacts and platform-compatibility selection.
//!
//! A release carries one downloadable artifact per platform. Selection ranks
//! the candidates against the target system: an exact OS and architecture
//! match is preferred, then an architecture the target can emulate, then an
//! artifact that declares no architecture at all; ties are broken towards
//! the earlier candidate, so selection is a pure function of the candidate
//! sequence and the target.

use vstd::prelude::*;

verus! {

/// Operating system tag of a system or artifact.
#[derive(Clone, Copy, Debug, PartialEq, Eq, Structural)]
pub enum Os {
    Windows,
    MacOs,
    Linux,
}

/// Processor architecture tag of a system or artifact.
#[derive(Clone, Copy, Debug, PartialEq, Eq, Structural)]
pub enum Arch {
    X64,
    X86,
    Arm64,
}

/// Archive format an artifact is packaged in.
#[derive(Clone, Copy, Debug, PartialEq, Eq, Structural)]
pub enum ArchiveFormat {
    /// A bare executable, no archive around it.
    Plain,
    Zip,
    TarGz,
}

/// The system installs are selected for.
#[derive(Clone, Copy, Debug, PartialEq, Eq, Structural)]
pub struct System {
    pub os: Os,
    pub arch: Arch,
}

/// A downloadable release asset: its declared platform tags, its archive
/// format, and its download handle.
#[derive(Debug)]
pub struct Artifact {
    pub os: Option<Os>,
    pub arch: Option<Arch>,
    pub format: ArchiveFormat,
    pub url: Vec<u8>,
}

/// Mathematical value of an [`Artifact`].
pub struct ArtifactView {
    pub os: Option<Os>,
    pub arch: Option<Arch>,
    pub format: ArchiveFormat,
    pub url: Seq<u8>,
}

impl View for Artifact {
    type V = ArtifactView;

    open spec fn view(&self) -> ArtifactView {
        ArtifactView { os: self.os, arch: self.arch, format: self.format, url: self.url@ }
    }
}

/// Values of a whole candidate list.
pub open spec fn artifact_views(s: Seq<Artifact>) -> Seq<ArtifactView> {
    s.map_values(|a: Artifact| a@)
}

/// A `host` architecture can run a binary built for `guest` through
/// documented emulation: a 64-bit ARM host runs x86-64 binaries, and an
/// x86-64 host runs 32-bit x86 binaries.
pub open spec fn emulates(host: Arch, guest: Arch) -> bool {
    ||| (host == Arch::Arm64 && guest == Arch::X64)
    ||| (host == Arch::X64 && guest == Arch::X86)
}

/// Compatibility rank of an artifact for a target system: 0 means
/// incompatible; higher is better. The OS must match exactly; an exact
/// architecture match (3) beats an emulated one (2) beats an artifact that
/// declares no architecture (1).
pub open spec fn compat_score(a: ArtifactView, t: System) -> int {
    if a.os != Some(t.os) {
        0
    } else {
        match a.arch {
            Some(ar) => if ar == t.arch {
                3
            } else if emulates(t.arch, ar) {
                2
            } else {
                0
            },
            None => 1,
        }
    }
}

/// Index of the best candidate among the first `n`: the earliest candidate
/// of maximal nonzero rank, or `None` where none of them is compatible.
pub open spec fn best_of_prefix(s: Seq<ArtifactView>, t: System, n: int) -> Option<int>
    decreases n,
{
    if n <= 0 {
        None
    } else {
        let prev = best_of_prefix(s, t, n - 1);
        let c = compat_score(s[n - 1], t);
        if c == 0 {
            prev
        } else {
            match prev {
                None => Some(n - 1),
                Some(j) => if compat_score(s[j], t) >= c {
                    prev
                } else {
                    Some(n - 1)
                },
            }
        }
    }
}

/// What selection returns on a whole candidate list.
pub open spec fn select_best_spec(s: Seq<ArtifactView>, t: System) -> Option<int> {
    best_of_prefix(s, t, s.len() as int)
}

/// The selected index is in range, compatible, of maximal rank, and the
/// earliest of that rank; and selection returns `None` exactly when no
/// candidate is compatible.
pub proof fn lemma_best_of_prefix_props(s: Seq<ArtifactView>, t: System, n: int)
    requires
        0 <= n <= s.len(),
    ensures
        match best_of_prefix(s, t, n) {
            None => forall|i: int| 0 <= i < n ==> compat_score(s[i], t) == 0,
            Some(j) => {
                &&& 0 <= j < n
                &&& compat_score(s[j], t) > 0
                &&& forall|i: int| 0 <= i < n ==> compat_score(s[i], t) <= compat_score(s[j], t)
                &&& forall|i: int| 0 <= i < j ==> compat_score(s[i], t) < compat_score(s[j], t)
            },
        },
    decreases n,
{
    if n > 0 {
        lemma_best_of_prefix_props(s, t, n - 1);
    }
}

/// Artifact selection is deterministic: it is a function of the candidate
/// sequence and the target system alone, so equal inputs select equally.
pub proof fn lemma_select_best_deterministic(
    s1: Seq<ArtifactView>,
    s2: Seq<ArtifactView>,
    t: System,
)
    requires
        s1 == s2,
    ensures
        select_best_spec(s1, t) == select_best_spec(s2, t),
{
}

/// Compatibility rank of one artifact, executable form.
pub fn rank_artifact(a: &Artifact, t: System) -> (c: u64)
    ensures
        c == compat_score(a@, t),
{
    let os_matches = match (a.os, t.os) {
        (Some(Os::Windows), Os::Windows) => true,
        (Some(Os::MacOs), Os::MacOs) => true,
        (Some(Os::Linux), Os::Linux) => true,
        _ => false,
    };
    if !os_matches {
        return 0;
    }
    match a.arch {
        None => 1,
        Some(ar) => {
            let exact = match (ar, t.arch) {
                (Arch::X64, Arch::X64) => true,
                (Arch::X86, Arch::X86) => true,
                (Arch::Arm64, Arch::Arm64) => true,
                _ => false,
            };
            if exact {
                3
            } else {
                let emulated = match (t.arch, ar) {
                    (Arch::Arm64, Arch::X64) => true,
                    (Arch::X64, Arch::X86) => true,
                    _ => false,
                };
                if emulated {
                    2
                } else {
                    0
                }
            }
        },
    }
}

/// Selects the best-ranked compatible candidate for the target system, the
/// earliest on ties, or `None` where no candidate is compatible.
pub fn select_best(artifacts: &Vec<Artifact>, target: System) -> (r: Option<usize>)
    ensures
        match r {
            Some(i) => i < artifacts@.len() && select_best_spec(artifact_views(artifacts@), target)
                == Some(i as int),
            None => select_best_spec(artifact_views(artifacts@), target) is None,
        },
{
    let ghost views = artifact_views(artifacts@);
    let mut best: Option<usize> = None;
    let mut best_score: u64 = 0;
    let mut i: usize = 0;
    while i < artifacts.len()
        invariant
            0 <= i <= artifacts.len(),
            views == artifact_views(artifacts@),
            views.len() == artifacts@.len(),
            forall|k: int| 0 <= k < views.len() ==> views[k] == artifacts@[k]@,
            match best {
                None => best_of_prefix(views, target, i as int) is None && best_score == 0,
                Some(j) => j < i && best_of_prefix(views, target, i as int) == Some(j as int)
                    && best_score == compat_score(views[j as int], target) && best_score > 0,
            },
        decreases artifacts.len() - i,
    {
        let c = rank_artifact(&artifacts[i], target);
        proof {
            assert(views[i as int] == artifacts@[i as int]@);
        }
        if c > best_score {
            best = Some(i);
            best_score = c;
        }
        proof {
            assert(best_of_prefix(views, target, i + 1) == match best {
                Option::<usize>::None => Option::<int>::None,
                Option::<usize>::Some(j) => Option::<int>::Some(j as int),
            });
        }
        i += 1;
    }
    best
}

} // verus!
