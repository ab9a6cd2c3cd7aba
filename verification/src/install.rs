//! The install orchestrator's decisions: gathering and deduplicating
//! manifest entries, trust gating, choosing which specs to install, and
//! folding per-spec pipeline outcomes into the ledger.
//!
//! The orchestrator itself performs no I/O. Callers hand it the
//! `alias -> spec` pairs that manifest discovery produced and the outcome of
//! each spec's resolve/download/extract/write pipeline; every decision in
//! between is verified here.

use vstd::prelude::*;

use crate::ledger::{id_in, spec_in, spec_installed, spec_trusted, Ledger, LedgerView};
use crate::storage::{path_of, store_lookup, Store};
use crate::tool::{ToolAlias, ToolSpec, ToolSpecView};

verus! {

/// Why an install run, or one spec's pipeline, failed.
#[derive(Clone, Copy, Debug, PartialEq, Eq, Structural)]
pub enum InstallError {
    /// The provider has no release matching the spec's version.
    NotFound,
    /// A credential was required and missing.
    AuthRequired,
    /// No release artifact fits the target system.
    NoCompatibleArtifact,
    /// A transport or filesystem failure.
    NetworkIo,
    /// The archive held no executable to extract.
    ExtractMissingExecutable,
    /// The archive could not be unpacked.
    ExtractOther,
    /// The user declined to trust a tool.
    UserDeclinedTrust,
}

/// The install operation's flags.
#[derive(Clone, Copy, Debug, PartialEq, Eq, Structural)]
pub struct InstallSubcommand {
    /// Skip the trust gate entirely; meant for unattended machines.
    pub no_trust_check: bool,
    /// Reinstall tools even when the ledger already records them.
    pub force: bool,
}

/// Values of a spec list.
pub open spec fn spec_views(s: Seq<ToolSpec>) -> Seq<ToolSpecView> {
    s.map_values(|t: ToolSpec| t@)
}

/// Values of an alias list.
pub open spec fn alias_views(s: Seq<ToolAlias>) -> Seq<Seq<u8>> {
    s.map_values(|t: ToolAlias| t@)
}

/// Values of a manifest's `alias -> spec` pairs.
pub open spec fn pair_views(s: Seq<(ToolAlias, ToolSpec)>) -> Seq<(Seq<u8>, ToolSpecView)> {
    s.map_values(|p: (ToolAlias, ToolSpec)| (p.0@, p.1@))
}

/// Membership of an alias value in an alias list.
pub open spec fn alias_in(s: Seq<Seq<u8>>, a: Seq<u8>) -> bool {
    exists|k: int| 0 <= k < s.len() && s[k] == a
}

/// No alias value occurs twice.
pub open spec fn aliases_unique(s: Seq<Seq<u8>>) -> bool {
    forall|i: int, j: int| 0 <= i < j < s.len() ==> s[i] != s[j]
}

/// No spec value occurs twice.
pub open spec fn specs_unique(s: Seq<ToolSpecView>) -> bool {
    forall|i: int, j: int| 0 <= i < j < s.len() ==> s[i] != s[j]
}

/// First-occurrence deduplication of the first `n` alias values, in order.
pub open spec fn dedup_alias_prefix(s: Seq<Seq<u8>>, n: int) -> Seq<Seq<u8>>
    decreases n,
{
    if n <= 0 {
        Seq::empty()
    } else {
        let p = dedup_alias_prefix(s, n - 1);
        if alias_in(p, s[n - 1]) {
            p
        } else {
            p.push(s[n - 1])
        }
    }
}

/// First-occurrence deduplication of the first `n` spec values, in order.
pub open spec fn dedup_spec_prefix(s: Seq<ToolSpecView>, n: int) -> Seq<ToolSpecView>
    decreases n,
{
    if n <= 0 {
        Seq::empty()
    } else {
        let p = dedup_spec_prefix(s, n - 1);
        if spec_in(p, s[n - 1]) {
            p
        } else {
            p.push(s[n - 1])
        }
    }
}

/// True when some alias list element equals `a`.
fn contains_alias(v: &Vec<ToolAlias>, a: &ToolAlias) -> (r: bool)
    ensures
        r == alias_in(alias_views(v@), a@),
{
    let mut i: usize = 0;
    while i < v.len()
        invariant
            0 <= i <= v.len(),
            forall|k: int| 0 <= k < i ==> alias_views(v@)[k] != a@,
        decreases v.len() - i,
    {
        if v[i].is_same_alias(a) {
            proof {
                assert(alias_views(v@)[i as int] == a@);
            }
            return true;
        }
        i += 1;
    }
    false
}

/// True when some spec list element equals `s`.
fn contains_spec(v: &Vec<ToolSpec>, s: &ToolSpec) -> (r: bool)
    ensures
        r == spec_in(spec_views(v@), s@),
{
    let mut i: usize = 0;
    while i < v.len()
        invariant
            0 <= i <= v.len(),
            forall|k: int| 0 <= k < i ==> spec_views(v@)[k] != s@,
        decreases v.len() - i,
    {
        if v[i].is_same_spec(s) {
            proof {
                assert(spec_views(v@)[i as int] == s@);
            }
            return true;
        }
        i += 1;
    }
    false
}

/// Deduplicates the aliases declared across all manifests, keeping first
/// occurrences in order: afterwards each declared alias appears exactly
/// once, and nothing else does.
pub fn dedup_aliases(pairs: &Vec<(ToolAlias, ToolSpec)>) -> (r: Vec<ToolAlias>)
    ensures
        aliases_unique(alias_views(r@)),
        forall|a: Seq<u8>| alias_in(alias_views(r@), a) <==> alias_in(
            pair_views(pairs@).map_values(|p: (Seq<u8>, ToolSpecView)| p.0),
            a,
        ),
        alias_views(r@) == dedup_alias_prefix(
            pair_views(pairs@).map_values(|p: (Seq<u8>, ToolSpecView)| p.0),
            pairs@.len() as int,
        ),
{
    let ghost declared = pair_views(pairs@).map_values(|p: (Seq<u8>, ToolSpecView)| p.0);
    let mut r: Vec<ToolAlias> = Vec::new();
    let mut i: usize = 0;
    while i < pairs.len()
        invariant
            0 <= i <= pairs.len(),
            declared == pair_views(pairs@).map_values(|p: (Seq<u8>, ToolSpecView)| p.0),
            declared.len() == pairs@.len(),
            forall|k: int| 0 <= k < pairs@.len() ==> declared[k] == pairs@[k].0@,
            aliases_unique(alias_views(r@)),
            forall|a: Seq<u8>| alias_in(alias_views(r@), a) <==> alias_in(declared.take(i as int), a),
            alias_views(r@) == dedup_alias_prefix(declared, i as int),
        decreases pairs.len() - i,
    {
        let ghost before = alias_views(r@);
        if !contains_alias(&r, &pairs[i].0) {
            r.push(pairs[i].0.duplicate());
            proof {
                assert(alias_views(r@) =~= before.push(pairs@[i as int].0@));
            }
        }
        proof {
            let cur = pairs@[i as int].0@;
            let di = declared.take(i as int + 1);
            assert(di =~= declared.take(i as int).push(cur));
            assert forall|a: Seq<u8>| alias_in(alias_views(r@), a) implies alias_in(
                di,
                a,
            ) by {
                let k = choose|k: int|
                    0 <= k < alias_views(r@).len() && alias_views(r@)[k] == a;
                if k < before.len() {
                    assert(alias_in(before, a));
                    let m = choose|m: int| 0 <= m < i && declared.take(i as int)[m] == a;
                    assert(di[m] == a);
                } else {
                    assert(a == cur);
                    assert(di[i as int] == a);
                }
            }
            assert forall|a: Seq<u8>| alias_in(di, a) implies alias_in(
                alias_views(r@),
                a,
            ) by {
                let m = choose|m: int| 0 <= m < i + 1 && di[m] == a;
                if m < i {
                    assert(declared.take(i as int)[m] == a);
                    assert(alias_in(before, a));
                    let k = choose|k: int| 0 <= k < before.len() && before[k] == a;
                    assert(alias_views(r@)[k] == a);
                } else {
                    assert(a == cur);
                    if alias_in(before, a) {
                        let k = choose|k: int| 0 <= k < before.len() && before[k] == a;
                        assert(alias_views(r@)[k] == a);
                    } else {
                        assert(alias_views(r@).last() == cur);
                    }
                }
            }
            assert forall|a: Seq<u8>| alias_in(alias_views(r@), a) <==> alias_in(
                declared.take(i as int + 1),
                a,
            ) by {}
        }
        i += 1;
    }
    proof {
        assert(declared.take(pairs@.len() as int) =~= declared);
    }
    r
}

/// Deduplicates the specs declared across all manifests: afterwards each
/// declared spec appears exactly once, and nothing else does, so one
/// download serves however many manifests declared the same tool.
pub fn dedup_specs(pairs: &Vec<(ToolAlias, ToolSpec)>) -> (r: Vec<ToolSpec>)
    ensures
        specs_unique(spec_views(r@)),
        forall|s: ToolSpecView| spec_in(spec_views(r@), s) <==> spec_in(
            pair_views(pairs@).map_values(|p: (Seq<u8>, ToolSpecView)| p.1),
            s,
        ),
        spec_views(r@) == dedup_spec_prefix(
            pair_views(pairs@).map_values(|p: (Seq<u8>, ToolSpecView)| p.1),
            pairs@.len() as int,
        ),
{
    let ghost declared = pair_views(pairs@).map_values(|p: (Seq<u8>, ToolSpecView)| p.1);
    let mut r: Vec<ToolSpec> = Vec::new();
    let mut i: usize = 0;
    while i < pairs.len()
        invariant
            0 <= i <= pairs.len(),
            declared == pair_views(pairs@).map_values(|p: (Seq<u8>, ToolSpecView)| p.1),
            declared.len() == pairs@.len(),
            forall|k: int| 0 <= k < pairs@.len() ==> declared[k] == pairs@[k].1@,
            specs_unique(spec_views(r@)),
            forall|s: ToolSpecView| spec_in(spec_views(r@), s) <==> spec_in(
                declared.take(i as int),
                s,
            ),
            spec_views(r@) == dedup_spec_prefix(declared, i as int),
        decreases pairs.len() - i,
    {
        let ghost before = spec_views(r@);
        if !contains_spec(&r, &pairs[i].1) {
            r.push(pairs[i].1.duplicate());
            proof {
                assert(spec_views(r@) =~= before.push(pairs@[i as int].1@));
            }
        }
        proof {
            let cur = pairs@[i as int].1@;
            let di = declared.take(i as int + 1);
            assert(di =~= declared.take(i as int).push(cur));
            assert forall|s: ToolSpecView| spec_in(spec_views(r@), s) implies spec_in(
                di,
                s,
            ) by {
                let k = choose|k: int| 0 <= k < spec_views(r@).len() && spec_views(r@)[k] == s;
                if k < before.len() {
                    assert(spec_in(before, s));
                    let m = choose|m: int| 0 <= m < i && declared.take(i as int)[m] == s;
                    assert(di[m] == s);
                } else {
                    assert(s == cur);
                    assert(di[i as int] == s);
                }
            }
            assert forall|s: ToolSpecView| spec_in(di, s) implies spec_in(
                spec_views(r@),
                s,
            ) by {
                let m = choose|m: int| 0 <= m < i + 1 && di[m] == s;
                if m < i {
                    assert(declared.take(i as int)[m] == s);
                    assert(spec_in(before, s));
                    let k = choose|k: int| 0 <= k < before.len() && before[k] == s;
                    assert(spec_views(r@)[k] == s);
                } else {
                    assert(s == cur);
                    if spec_in(before, s) {
                        let k = choose|k: int| 0 <= k < before.len() && before[k] == s;
                        assert(spec_views(r@)[k] == s);
                    } else {
                        assert(spec_views(r@).last() == cur);
                    }
                }
            }
            assert forall|s: ToolSpecView| spec_in(spec_views(r@), s) <==> spec_in(
                declared.take(i as int + 1),
                s,
            ) by {}
        }
        i += 1;
    }
    proof {
        assert(declared.take(pairs@.len() as int) =~= declared);
    }
    r
}

/// In a duplicate-free list, a member occupies exactly one position: this is
/// why deduplicated specs are downloaded once each and deduplicated aliases
/// are linked once each.
pub proof fn lemma_unique_member_once<T>(s: Seq<T>, x: T)
    requires
        forall|i: int, j: int| 0 <= i < j < s.len() ==> s[i] != s[j],
        exists|k: int| 0 <= k < s.len() && s[k] == x,
    ensures
        exists|k: int|
            (0 <= k < s.len() && s[k] == x) && forall|j: int|
                0 <= j < s.len() && s[j] == x ==> j == k,
{
    let k = choose|k: int| 0 <= k < s.len() && s[k] == x;
    assert forall|j: int| 0 <= j < s.len() && s[j] == x implies j == k by {
        if j < k {
            assert(s[j] != s[k]);
        } else if j > k {
            assert(s[k] != s[j]);
        }
    }
}


/// Every element of `sub` is declared in `of`.
pub open spec fn members_of(sub: Seq<ToolSpecView>, of: Seq<ToolSpecView>) -> bool {
    forall|j: int| 0 <= j < sub.len() ==> spec_in(of, #[trigger] sub[j])
}

/// The ledger trusts the identity of every listed spec.
pub open spec fn all_trusted(l: LedgerView, s: Seq<ToolSpecView>) -> bool {
    forall|j: int| 0 <= j < s.len() ==> spec_trusted(l, (#[trigger] s[j]).id)
}

/// The ledger trusts the identity of no listed spec.
pub open spec fn none_trusted(l: LedgerView, s: Seq<ToolSpecView>) -> bool {
    forall|j: int| 0 <= j < s.len() ==> !spec_trusted(l, (#[trigger] s[j]).id)
}

/// The ledger records every listed spec as installed.
pub open spec fn all_installed(l: LedgerView, s: Seq<ToolSpecView>) -> bool {
    forall|j: int| 0 <= j < s.len() ==> spec_installed(l, #[trigger] s[j])
}

/// The ledger records no listed spec as installed.
pub open spec fn none_installed(l: LedgerView, s: Seq<ToolSpecView>) -> bool {
    forall|j: int| 0 <= j < s.len() ==> !spec_installed(l, #[trigger] s[j])
}

/// Every declared spec lands on the side of the trust gate that the ledger
/// dictates.
pub open spec fn gate_covers(
    l: LedgerView,
    specs: Seq<ToolSpecView>,
    tv: Seq<ToolSpecView>,
    uv: Seq<ToolSpecView>,
) -> bool {
    forall|k: int| 0 <= k < specs.len() ==> (if spec_trusted(l, (#[trigger] specs[k]).id) {
        spec_in(tv, specs[k])
    } else {
        spec_in(uv, specs[k])
    })
}

/// Every gated spec lands on the side of the install plan that the ledger
/// and the force flag dictate.
pub open spec fn plan_covers(
    l: LedgerView,
    force: bool,
    specs: Seq<ToolSpecView>,
    inst: Seq<ToolSpecView>,
    skip: Seq<ToolSpecView>,
) -> bool {
    forall|k: int| 0 <= k < specs.len() ==> (if !force && spec_installed(
        l,
        #[trigger] specs[k],
    ) {
        spec_in(skip, specs[k])
    } else {
        spec_in(inst, specs[k])
    })
}

/// The trusted half of trust-splitting the first `n` specs, in order: with
/// `skip` set it takes everything, else exactly the specs of trusted
/// identities.
pub open spec fn gate_trusted_prefix(
    l: LedgerView,
    skip: bool,
    s: Seq<ToolSpecView>,
    n: int,
) -> Seq<ToolSpecView>
    decreases n,
{
    if n <= 0 {
        Seq::empty()
    } else {
        let p = gate_trusted_prefix(l, skip, s, n - 1);
        if skip || spec_trusted(l, s[n - 1].id) {
            p.push(s[n - 1])
        } else {
            p
        }
    }
}

/// The untrusted half of trust-splitting the first `n` specs, in order.
pub open spec fn gate_untrusted_prefix(
    l: LedgerView,
    skip: bool,
    s: Seq<ToolSpecView>,
    n: int,
) -> Seq<ToolSpecView>
    decreases n,
{
    if n <= 0 {
        Seq::empty()
    } else {
        let p = gate_untrusted_prefix(l, skip, s, n - 1);
        if skip || spec_trusted(l, s[n - 1].id) {
            p
        } else {
            p.push(s[n - 1])
        }
    }
}

/// The install side of the plan over the first `n` specs, in order: exactly
/// the specs not yet installed, or everything under a forced reinstall.
pub open spec fn plan_install_prefix(
    l: LedgerView,
    force: bool,
    s: Seq<ToolSpecView>,
    n: int,
) -> Seq<ToolSpecView>
    decreases n,
{
    if n <= 0 {
        Seq::empty()
    } else {
        let p = plan_install_prefix(l, force, s, n - 1);
        if !force && spec_installed(l, s[n - 1]) {
            p
        } else {
            p.push(s[n - 1])
        }
    }
}

/// The skipped side of the plan over the first `n` specs, in order.
pub open spec fn plan_skip_prefix(
    l: LedgerView,
    force: bool,
    s: Seq<ToolSpecView>,
    n: int,
) -> Seq<ToolSpecView>
    decreases n,
{
    if n <= 0 {
        Seq::empty()
    } else {
        let p = plan_skip_prefix(l, force, s, n - 1);
        if !force && spec_installed(l, s[n - 1]) {
            p.push(s[n - 1])
        } else {
            p
        }
    }
}

impl InstallSubcommand {
    /// Splits the deduplicated specs into those whose identity the ledger
    /// already trusts and those it does not; the caller prompts once for
    /// the whole untrusted batch. With `no_trust_check` set everything
    /// passes and nothing is ever prompted for. An identity the ledger
    /// trusts never lands in the untrusted batch, so no identity is ever
    /// prompted for twice.
    pub fn gate(&self, ledger: &Ledger, specs: &Vec<ToolSpec>) -> (r: (Vec<ToolSpec>, Vec<
        ToolSpec,
    >))
        ensures
            spec_views(r.0@).len() + spec_views(r.1@).len() == specs@.len(),
            members_of(spec_views(r.0@), spec_views(specs@)),
            members_of(spec_views(r.1@), spec_views(specs@)),
            self.no_trust_check ==> spec_views(r.0@) == spec_views(specs@) && r.1@.len() == 0,
            !self.no_trust_check ==> all_trusted(ledger@, spec_views(r.0@)),
            none_trusted(ledger@, spec_views(r.1@)),
            !self.no_trust_check ==> gate_covers(
                ledger@,
                spec_views(specs@),
                spec_views(r.0@),
                spec_views(r.1@),
            ),
            spec_views(r.0@) == gate_trusted_prefix(
                ledger@,
                self.no_trust_check,
                spec_views(specs@),
                specs@.len() as int,
            ),
            spec_views(r.1@) == gate_untrusted_prefix(
                ledger@,
                self.no_trust_check,
                spec_views(specs@),
                specs@.len() as int,
            ),
    {
        let mut trusted: Vec<ToolSpec> = Vec::new();
        let mut untrusted: Vec<ToolSpec> = Vec::new();
        let mut i: usize = 0;
        while i < specs.len()
            invariant
                0 <= i <= specs.len(),
                spec_views(trusted@).len() + spec_views(untrusted@).len() == i,
                members_of(spec_views(trusted@), spec_views(specs@)),
                members_of(spec_views(untrusted@), spec_views(specs@)),
                self.no_trust_check ==> spec_views(trusted@) == spec_views(specs@).take(i as int)
                    && untrusted@.len() == 0,
                !self.no_trust_check ==> all_trusted(ledger@, spec_views(trusted@)),
                none_trusted(ledger@, spec_views(untrusted@)),
                !self.no_trust_check ==> gate_covers(
                    ledger@,
                    spec_views(specs@).take(i as int),
                    spec_views(trusted@),
                    spec_views(untrusted@),
                ),
                spec_views(trusted@) == gate_trusted_prefix(
                    ledger@,
                    self.no_trust_check,
                    spec_views(specs@),
                    i as int,
                ),
                spec_views(untrusted@) == gate_untrusted_prefix(
                    ledger@,
                    self.no_trust_check,
                    spec_views(specs@),
                    i as int,
                ),
            decreases specs.len() - i,
        {
            let ghost sv = spec_views(specs@);
            let ghost tb = spec_views(trusted@);
            let ghost ub = spec_views(untrusted@);
            let s = specs[i].duplicate();
            proof {
                assert(sv[i as int] == specs@[i as int]@);
            }
            if self.no_trust_check || ledger.is_trusted(&s.id) {
                trusted.push(s);
                proof {
                    assert(spec_views(trusted@) =~= tb.push(sv[i as int]));
                    assert(spec_views(trusted@)[tb.len() as int] == sv[i as int]);
                    assert(spec_in(sv, sv[i as int]));
                    assert forall|x: ToolSpecView| spec_in(tb, x) implies spec_in(
                        spec_views(trusted@),
                        x,
                    ) by {
                        let m = choose|m: int| 0 <= m < tb.len() && tb[m] == x;
                        assert(spec_views(trusted@)[m] == x);
                    }
                    if self.no_trust_check {
                        assert(spec_views(trusted@) =~= sv.take(i as int + 1));
                    }
                }
            } else {
                untrusted.push(s);
                proof {
                    assert(spec_views(untrusted@) =~= ub.push(sv[i as int]));
                    assert(spec_views(untrusted@)[ub.len() as int] == sv[i as int]);
                    assert(spec_in(sv, sv[i as int]));
                    assert forall|x: ToolSpecView| spec_in(ub, x) implies spec_in(
                        spec_views(untrusted@),
                        x,
                    ) by {
                        let m = choose|m: int| 0 <= m < ub.len() && ub[m] == x;
                        assert(spec_views(untrusted@)[m] == x);
                    }
                }
            }
            proof {
                if !self.no_trust_check {
                    let svi = sv.take(i as int + 1);
                    assert(svi =~= sv.take(i as int).push(sv[i as int]));
                    assert forall|k: int| 0 <= k < svi.len() implies (if spec_trusted(
                        ledger@,
                        (#[trigger] svi[k]).id,
                    ) {
                        spec_in(spec_views(trusted@), svi[k])
                    } else {
                        spec_in(spec_views(untrusted@), svi[k])
                    }) by {
                        if k < i {
                            assert(sv.take(i as int)[k] == svi[k]);
                        }
                    }
                }
            }
            i += 1;
        }
        proof {
            assert(spec_views(specs@).take(specs@.len() as int) =~= spec_views(specs@));
        }
        (trusted, untrusted)
    }

    /// Splits the gated specs into those to install and those to skip: a
    /// spec the ledger already records as installed is skipped unless a
    /// forced reinstall was requested. On a run where everything is already
    /// installed and `force` is unset, nothing at all is downloaded.
    pub fn plan(&self, ledger: &Ledger, specs: &Vec<ToolSpec>) -> (r: (Vec<ToolSpec>, Vec<
        ToolSpec,
    >))
        ensures
            spec_views(r.0@).len() + spec_views(r.1@).len() == specs@.len(),
            members_of(spec_views(r.0@), spec_views(specs@)),
            members_of(spec_views(r.1@), spec_views(specs@)),
            !self.force ==> none_installed(ledger@, spec_views(r.0@)),
            self.force ==> spec_views(r.0@) == spec_views(specs@) && r.1@.len() == 0,
            all_installed(ledger@, spec_views(r.1@)),
            self.force || plan_covers(
                ledger@,
                self.force,
                spec_views(specs@),
                spec_views(r.0@),
                spec_views(r.1@),
            ),
            spec_views(r.0@) == plan_install_prefix(
                ledger@,
                self.force,
                spec_views(specs@),
                specs@.len() as int,
            ),
            spec_views(r.1@) == plan_skip_prefix(
                ledger@,
                self.force,
                spec_views(specs@),
                specs@.len() as int,
            ),
    {
        let mut to_install: Vec<ToolSpec> = Vec::new();
        let mut skipped: Vec<ToolSpec> = Vec::new();
        let mut i: usize = 0;
        while i < specs.len()
            invariant
                0 <= i <= specs.len(),
                spec_views(to_install@).len() + spec_views(skipped@).len() == i,
                members_of(spec_views(to_install@), spec_views(specs@)),
                members_of(spec_views(skipped@), spec_views(specs@)),
                !self.force ==> none_installed(ledger@, spec_views(to_install@)),
                self.force ==> spec_views(to_install@) == spec_views(specs@).take(i as int)
                    && skipped@.len() == 0,
                all_installed(ledger@, spec_views(skipped@)),
                self.force || plan_covers(
                    ledger@,
                    self.force,
                    spec_views(specs@).take(i as int),
                    spec_views(to_install@),
                    spec_views(skipped@),
                ),
                spec_views(to_install@) == plan_install_prefix(
                    ledger@,
                    self.force,
                    spec_views(specs@),
                    i as int,
                ),
                spec_views(skipped@) == plan_skip_prefix(
                    ledger@,
                    self.force,
                    spec_views(specs@),
                    i as int,
                ),
            decreases specs.len() - i,
        {
            let ghost sv = spec_views(specs@);
            let ghost tb = spec_views(to_install@);
            let ghost sb = spec_views(skipped@);
            let s = specs[i].duplicate();
            proof {
                assert(sv[i as int] == specs@[i as int]@);
            }
            if !self.force && ledger.is_installed(&s) {
                skipped.push(s);
                proof {
                    assert(spec_views(skipped@) =~= sb.push(sv[i as int]));
                    assert(spec_views(skipped@)[sb.len() as int] == sv[i as int]);
                    assert(spec_in(sv, sv[i as int]));
                    assert forall|x: ToolSpecView| spec_in(sb, x) implies spec_in(
                        spec_views(skipped@),
                        x,
                    ) by {
                        let m = choose|m: int| 0 <= m < sb.len() && sb[m] == x;
                        assert(spec_views(skipped@)[m] == x);
                    }
                }
            } else {
                to_install.push(s);
                proof {
                    assert(spec_views(to_install@) =~= tb.push(sv[i as int]));
                    assert(spec_views(to_install@)[tb.len() as int] == sv[i as int]);
                    assert(spec_in(sv, sv[i as int]));
                    assert forall|x: ToolSpecView| spec_in(tb, x) implies spec_in(
                        spec_views(to_install@),
                        x,
                    ) by {
                        let m = choose|m: int| 0 <= m < tb.len() && tb[m] == x;
                        assert(spec_views(to_install@)[m] == x);
                    }
                    if self.force {
                        assert(spec_views(to_install@) =~= sv.take(i as int + 1));
                    }
                }
            }
            proof {
                if !self.force {
                    let svi = sv.take(i as int + 1);
                    assert(svi =~= sv.take(i as int).push(sv[i as int]));
                    assert forall|k: int| 0 <= k < svi.len() implies (if spec_installed(
                        ledger@,
                        #[trigger] svi[k],
                    ) {
                        spec_in(spec_views(skipped@), svi[k])
                    } else {
                        spec_in(spec_views(to_install@), svi[k])
                    }) by {
                        if k < i {
                            assert(sv.take(i as int)[k] == svi[k]);
                        }
                    }
                }
            }
            i += 1;
        }
        proof {
            assert(spec_views(specs@).take(specs@.len() as int) =~= spec_views(specs@));
        }
        (to_install, skipped)
    }
}

/// The trusted column after recording the first `n` accepted identities,
/// in order, skipping those already present.
pub open spec fn trust_after(
    t: Seq<crate::tool::ToolIdView>,
    acc: Seq<crate::tool::ToolIdView>,
    n: int,
) -> Seq<crate::tool::ToolIdView>
    decreases n,
{
    if n <= 0 {
        t
    } else {
        let p = trust_after(t, acc, n - 1);
        if id_in(p, acc[n - 1]) {
            p
        } else {
            p.push(acc[n - 1])
        }
    }
}

/// Identities of an accepted batch of specs.
pub open spec fn accepted_ids(s: Seq<ToolSpec>) -> Seq<crate::tool::ToolIdView> {
    s.map_values(|t: ToolSpec| t@.id)
}

/// Records the accepted batch of a trust prompt: each accepted identity is
/// trusted afterwards, nothing loses trust, and installs are untouched.
pub fn record_trust(ledger: &mut Ledger, accepted: &Vec<ToolSpec>)
    ensures
        final(ledger)@.installed == old(ledger)@.installed,
        forall|x: crate::tool::ToolIdView| spec_trusted(old(ledger)@, x) ==> spec_trusted(
            final(ledger)@,
            x,
        ),
        forall|j: int| 0 <= j < accepted@.len() ==> spec_trusted(
            final(ledger)@,
            #[trigger] accepted@[j]@.id,
        ),
        final(ledger)@.trusted == trust_after(
            old(ledger)@.trusted,
            accepted_ids(accepted@),
            accepted@.len() as int,
        ),
{
    let mut i: usize = 0;
    while i < accepted.len()
        invariant
            0 <= i <= accepted.len(),
            ledger@.installed == old(ledger)@.installed,
            forall|x: crate::tool::ToolIdView| spec_trusted(old(ledger)@, x) ==> spec_trusted(
                ledger@,
                x,
            ),
            forall|j: int| 0 <= j < i ==> spec_trusted(ledger@, #[trigger] accepted@[j]@.id),
            ledger@.trusted == trust_after(
                old(ledger)@.trusted,
                accepted_ids(accepted@),
                i as int,
            ),
        decreases accepted.len() - i,
    {
        let ghost mid = ledger@;
        ledger.add_trust(accepted[i].id.duplicate());
        proof {
            assert forall|j: int| 0 <= j < i implies spec_trusted(
                ledger@,
                #[trigger] accepted@[j]@.id,
            ) by {
                assert(spec_trusted(mid, accepted@[j]@.id));
            }
        }
        i += 1;
    }
}

/// Values of per-spec pipeline outcomes, in completion order.
pub open spec fn outcome_views(s: Seq<(ToolSpec, Option<InstallError>)>) -> Seq<
    (ToolSpecView, Option<InstallError>),
> {
    s.map_values(|p: (ToolSpec, Option<InstallError>)| (p.0@, p.1))
}

/// Position of the first failed outcome, or the length when every pipeline
/// succeeded: outcomes past it were never awaited.
pub open spec fn stop_of(rs: Seq<(ToolSpecView, Option<InstallError>)>) -> int
    decreases rs.len(),
{
    if rs.len() == 0 {
        0
    } else if rs.first().1 is Some {
        0
    } else {
        1 + stop_of(rs.drop_first())
    }
}

/// `stop_of` is in range, everything before it succeeded, and it points at
/// a failure whenever it is not the end.
pub proof fn lemma_stop_of(rs: Seq<(ToolSpecView, Option<InstallError>)>)
    ensures
        0 <= stop_of(rs) <= rs.len(),
        forall|i: int| 0 <= i < stop_of(rs) ==> rs[i].1 is None,
        stop_of(rs) < rs.len() ==> rs[stop_of(rs)].1 is Some,
    decreases rs.len(),
{
    if rs.len() > 0 && rs.first().1 is None {
        lemma_stop_of(rs.drop_first());
        assert forall|i: int| 0 <= i < stop_of(rs) implies rs[i].1 is None by {
            if i > 0 {
                assert(rs.drop_first()[i - 1].1 is None);
            }
        }
        if stop_of(rs) < rs.len() {
            assert(rs[stop_of(rs)] == rs.drop_first()[stop_of(rs) - 1]);
        }
    }
}

/// Folds the per-spec pipeline outcomes into the ledger, fail-fast: each
/// success up to the first failure is committed as installed the moment it
/// is seen, and the first failure aborts the run with that error. Successes
/// committed before the failure keep their ledger entries even though the
/// run as a whole reports failure; with no failure, the run reports how
/// many specs it processed.
pub fn apply_outcomes(ledger: &mut Ledger, results: &Vec<(ToolSpec, Option<InstallError>)>) -> (r:
    Result<usize, InstallError>)
    ensures
        final(ledger)@.trusted == old(ledger)@.trusted,
        forall|x: ToolSpecView| spec_installed(final(ledger)@, x) <==> (spec_installed(
            old(ledger)@,
            x,
        ) || exists|i: int|
            0 <= i < stop_of(outcome_views(results@)) && outcome_views(results@)[i].0 == x),
        match r {
            Ok(n) => n == results@.len() && stop_of(outcome_views(results@)) == results@.len(),
            Err(e) => {
                let sp = stop_of(outcome_views(results@));
                &&& sp < results@.len()
                &&& outcome_views(results@)[sp].1 == Some(e)
            },
        },
{
    let ghost rs = outcome_views(results@);
    proof {
        lemma_stop_of(rs);
        assert(rs.len() == results@.len());
    }
    let mut i: usize = 0;
    while i < results.len()
        invariant
            0 <= i <= results.len(),
            rs == outcome_views(results@),
            rs.len() == results@.len(),
            forall|k: int| 0 <= k < rs.len() ==> rs[k] == (results@[k].0@, results@[k].1),
            i <= stop_of(rs),
            0 <= stop_of(rs) <= rs.len(),
            forall|k: int| 0 <= k < stop_of(rs) ==> rs[k].1 is None,
            stop_of(rs) < rs.len() ==> rs[stop_of(rs)].1 is Some,
            forall|k: int| 0 <= k < i ==> rs[k].1 is None,
            ledger@.trusted == old(ledger)@.trusted,
            forall|x: ToolSpecView| spec_installed(ledger@, x) <==> (spec_installed(
                old(ledger)@,
                x,
            ) || exists|k: int| 0 <= k < i && rs[k].0 == x),
        decreases results.len() - i,
    {
        let ghost mid = ledger@;
        match results[i].1 {
            Some(e) => {
                proof {
                    // Everything before `i` succeeded and `i` failed, so
                    // `i` is exactly the first failure.
                    if stop_of(rs) > i {
                        assert(rs[i as int].1 is None);
                    }
                    assert(stop_of(rs) == i);
                }
                return Err(e);
            },
            None => {
                ledger.add_installed(results[i].0.duplicate());
                proof {
                    assert forall|x: ToolSpecView| spec_installed(ledger@, x) <==> (
                    spec_installed(old(ledger)@, x) || exists|k: int|
                        0 <= k < i + 1 && rs[k].0 == x) by {
                        if spec_installed(ledger@, x) {
                            if x == rs[i as int].0 {
                                assert(0 <= i < i + 1 && rs[i as int].0 == x);
                            } else {
                                assert(spec_installed(mid, x));
                                if !spec_installed(old(ledger)@, x) {
                                    let k = choose|k: int| 0 <= k < i && rs[k].0 == x;
                                    assert(0 <= k < i + 1 && rs[k].0 == x);
                                }
                            }
                        }
                        if spec_installed(old(ledger)@, x) {
                            assert(spec_installed(mid, x));
                            assert(spec_installed(ledger@, x));
                        }
                        if exists|k: int| 0 <= k < i + 1 && rs[k].0 == x {
                            let k = choose|k: int| 0 <= k < i + 1 && rs[k].0 == x;
                            if k < i {
                                assert(spec_installed(mid, x));
                                assert(spec_installed(ledger@, x));
                            } else {
                                assert(x == results@[i as int].0@);
                                assert(spec_installed(ledger@, x));
                            }
                        }
                    }
                }
            },
        }
        i += 1;
    }
    proof {
        assert(stop_of(rs) == rs.len());
    }
    Ok(results.len())
}

/// A trusted identity is never prompted for again: the trust gate's
/// untrusted batch — the only thing ever prompted for — holds no spec of
/// any identity the ledger trusts, whatever its version.
pub proof fn lemma_trusted_never_prompted(
    l: LedgerView,
    untrusted: Seq<ToolSpecView>,
    id: crate::tool::ToolIdView,
)
    requires
        spec_trusted(l, id),
        none_trusted(l, untrusted),
    ensures
        forall|j: int| 0 <= j < untrusted.len() ==> (#[trigger] untrusted[j]).id != id,
{
}

/// Every spec the ledger records as installed has bytes at its
/// content-addressed path in the store.
pub open spec fn installed_backed(l: LedgerView, st: Seq<(Seq<Seq<u8>>, Seq<u8>)>) -> bool {
    forall|x: ToolSpecView| #[trigger] spec_installed(l, x) ==> store_lookup(st, path_of(x))
        is Some
}

/// Commits one successful install: writes the extracted binary at the
/// spec's content-addressed path, then records the spec as installed. The
/// write lands before the record, so a ledger that only ever grows through
/// this function keeps the invariant that every installed spec's bytes
/// exist at its path.
pub fn commit_install(ledger: &mut Ledger, store: &mut Store, spec: &ToolSpec, contents: Vec<u8>)
    ensures
        installed_backed(old(ledger)@, old(store)@) ==> installed_backed(
            final(ledger)@,
            final(store)@,
        ),
        final(ledger)@.trusted == old(ledger)@.trusted,
        spec_installed(final(ledger)@, spec@),
        forall|x: ToolSpecView| spec_installed(old(ledger)@, x) ==> spec_installed(
            final(ledger)@,
            x,
        ),
        store_lookup(final(store)@, path_of(spec@)) == Some(contents@),
        forall|q: Seq<Seq<u8>>| q != path_of(spec@) ==> store_lookup(final(store)@, q)
            == store_lookup(old(store)@, q),
{
    let ghost c = contents@;
    store.replace_tool_contents(spec, contents);
    let ghost mid_installed = ledger@.installed;
    ledger.add_installed(spec.duplicate());
    proof {
        if installed_backed(old(ledger)@, old(store)@) {
            assert forall|x: ToolSpecView| spec_installed(ledger@, x) implies store_lookup(
                store@,
                path_of(x),
            ) is Some by {
                if path_of(x) == path_of(spec@) {
                    assert(store_lookup(store@, path_of(x)) == Some(c));
                } else {
                    // `x` was installed before this commit: membership in
                    // the grown column traces back to the old one.
                    let k = choose|k: int|
                        0 <= k < ledger@.installed.len() && ledger@.installed[k] == x;
                    if k < mid_installed.len() {
                        assert(mid_installed[k] == x);
                        assert(spec_installed(old(ledger)@, x));
                    } else {
                        assert(x == spec@);
                    }
                    assert(store_lookup(old(store)@, path_of(x)) is Some);
                }
            }
        }
    }
}

/// Idempotence of a repeated run: when every declared spec is already
/// trusted and installed and no forced reinstall was requested, the trust
/// gate's untrusted batch is empty — nobody is prompted — and the install
/// plan is empty — nothing is downloaded. With no accepted trust and no
/// outcomes to fold in, the ledger is left exactly as it was, and relinking
/// regenerates the same link per alias.
pub proof fn lemma_second_run_idempotent(
    l: LedgerView,
    specs: Seq<ToolSpecView>,
    untrusted: Seq<ToolSpecView>,
    to_install: Seq<ToolSpecView>,
)
    requires
        forall|k: int| 0 <= k < specs.len() ==> spec_trusted(l, (#[trigger] specs[k]).id)
            && spec_installed(l, specs[k]),
        forall|j: int| 0 <= j < untrusted.len() ==> spec_in(specs, #[trigger] untrusted[j])
            && !spec_trusted(l, untrusted[j].id),
        forall|j: int| 0 <= j < to_install.len() ==> spec_in(specs, #[trigger] to_install[j])
            && !spec_installed(l, to_install[j]),
    ensures
        untrusted.len() == 0,
        to_install.len() == 0,
{
    if untrusted.len() > 0 {
        let k = choose|k: int| 0 <= k < specs.len() && specs[k] == untrusted[0];
        assert(spec_trusted(l, specs[k].id));
        assert(false);
    }
    if to_install.len() > 0 {
        let k = choose|k: int| 0 <= k < specs.len() && specs[k] == to_install[0];
        assert(spec_installed(l, specs[k]));
        assert(false);
    }
}

} // verus!
