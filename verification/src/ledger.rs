//! The trust-and-install ledger: persisted records of trusted tool
//! identities and installed tool specs.
//!
//! The install pipeline only ever adds entries; revocation is external. Each
//! operation states that the recorded sets grow monotonically, which is what
//! makes trust and installation stick across runs.

use vstd::prelude::*;

use crate::tool::{ToolId, ToolIdView, ToolSpec, ToolSpecView};

verus! {

/// Membership of an identity in a ledger column.
pub open spec fn id_in(s: Seq<ToolIdView>, x: ToolIdView) -> bool {
    exists|k: int| 0 <= k < s.len() && s[k] == x
}

/// Membership of a spec in a ledger column.
pub open spec fn spec_in(s: Seq<ToolSpecView>, x: ToolSpecView) -> bool {
    exists|k: int| 0 <= k < s.len() && s[k] == x
}

/// Mathematical value of a [`Ledger`]: which identities are trusted and
/// which specs are installed.
pub struct LedgerView {
    pub trusted: Seq<ToolIdView>,
    pub installed: Seq<ToolSpecView>,
}

/// The trust-and-install ledger.
pub struct Ledger {
    trusted: Vec<ToolId>,
    installed: Vec<ToolSpec>,
}

impl View for Ledger {
    type V = LedgerView;

    closed spec fn view(&self) -> LedgerView {
        LedgerView {
            trusted: self.trusted@.map_values(|t: ToolId| t@),
            installed: self.installed@.map_values(|t: ToolSpec| t@),
        }
    }
}

/// An identity is trusted when the ledger records it.
pub open spec fn spec_trusted(l: LedgerView, id: ToolIdView) -> bool {
    id_in(l.trusted, id)
}

/// A spec is installed when the ledger records it.
pub open spec fn spec_installed(l: LedgerView, s: ToolSpecView) -> bool {
    spec_in(l.installed, s)
}

impl Ledger {
    /// An empty ledger: nothing trusted, nothing installed.
    pub fn new() -> (r: Ledger)
        ensures
            r@.trusted.len() == 0,
            r@.installed.len() == 0,
    {
        Ledger { trusted: Vec::new(), installed: Vec::new() }
    }

    /// Rebuilds a ledger from its persisted columns.
    pub fn from_entries(trusted: Vec<ToolId>, installed: Vec<ToolSpec>) -> (r: Ledger)
        ensures
            r@.trusted == trusted@.map_values(|t: ToolId| t@),
            r@.installed == installed@.map_values(|t: ToolSpec| t@),
    {
        Ledger { trusted, installed }
    }

    /// The recorded trusted identities, for persistence.
    pub fn trusted_entries(&self) -> (r: &Vec<ToolId>)
        ensures
            r@.map_values(|t: ToolId| t@) == self@.trusted,
    {
        &self.trusted
    }

    /// The recorded installed specs, for persistence.
    pub fn installed_entries(&self) -> (r: &Vec<ToolSpec>)
        ensures
            r@.map_values(|t: ToolSpec| t@) == self@.installed,
    {
        &self.installed
    }

    /// True when the identity is recorded as trusted.
    pub fn is_trusted(&self, id: &ToolId) -> (r: bool)
        ensures
            r == spec_trusted(self@, id@),
    {
        let mut i: usize = 0;
        while i < self.trusted.len()
            invariant
                0 <= i <= self.trusted.len(),
                forall|k: int| 0 <= k < i ==> self@.trusted[k] != id@,
            decreases self.trusted.len() - i,
        {
            if self.trusted[i].is_same_id(id) {
                proof {
                    assert(self@.trusted[i as int] == id@);
                }
                return true;
            }
            i += 1;
        }
        false
    }

    /// True when the spec is recorded as installed.
    pub fn is_installed(&self, s: &ToolSpec) -> (r: bool)
        ensures
            r == spec_installed(self@, s@),
    {
        let mut i: usize = 0;
        while i < self.installed.len()
            invariant
                0 <= i <= self.installed.len(),
                forall|k: int| 0 <= k < i ==> self@.installed[k] != s@,
            decreases self.installed.len() - i,
        {
            if self.installed[i].is_same_spec(s) {
                proof {
                    assert(self@.installed[i as int] == s@);
                }
                return true;
            }
            i += 1;
        }
        false
    }

    /// Records an identity as trusted. Trust only grows: everything trusted
    /// before stays trusted, the given identity is trusted after, the
    /// installed column is untouched, and a second recording of the same
    /// identity changes nothing.
    pub fn add_trust(&mut self, id: ToolId)
        ensures
            final(self)@.installed == old(self)@.installed,
            spec_trusted(final(self)@, id@),
            forall|x: ToolIdView| spec_trusted(old(self)@, x) ==> spec_trusted(final(self)@, x),
            spec_trusted(old(self)@, id@) ==> final(self)@.trusted == old(self)@.trusted,
            !spec_trusted(old(self)@, id@) ==> final(self)@.trusted == old(self)@.trusted.push(
                id@,
            ),
    {
        if !self.is_trusted(&id) {
            let ghost before = self@.trusted;
            self.trusted.push(id);
            proof {
                assert(self@.trusted =~= before.push(id@));
                assert(self@.trusted[before.len() as int] == id@);
                assert forall|x: ToolIdView| id_in(before, x) implies id_in(
                    self@.trusted,
                    x,
                ) by {
                    let k = choose|k: int| 0 <= k < before.len() && before[k] == x;
                    assert(self@.trusted[k] == x);
                }
            }
        }
    }

    /// Records a spec as installed. The installed column only grows, the
    /// trusted column is untouched, and a second recording of the same spec
    /// changes nothing.
    pub fn add_installed(&mut self, s: ToolSpec)
        ensures
            final(self)@.trusted == old(self)@.trusted,
            spec_installed(final(self)@, s@),
            forall|x: ToolSpecView| spec_installed(old(self)@, x) ==> spec_installed(
                final(self)@,
                x,
            ),
            spec_installed(old(self)@, s@) ==> final(self)@.installed == old(self)@.installed,
            !spec_installed(old(self)@, s@) ==> final(self)@.installed
                == old(self)@.installed.push(s@),
    {
        if !self.is_installed(&s) {
            let ghost before = self@.installed;
            self.installed.push(s);
            proof {
                assert(self@.installed =~= before.push(s@));
                assert(self@.installed[before.len() as int] == s@);
                assert forall|x: ToolSpecView| spec_in(before, x) implies spec_in(
                    self@.installed,
                    x,
                ) by {
                    let k = choose|k: int| 0 <= k < before.len() && before[k] == x;
                    assert(self@.installed[k] == x);
                }
            }
        }
    }
}

/// Trust monotonicity: an identity trusted in one ledger state stays trusted
/// in any later state that the install pipeline's operations can reach,
/// since each of them only grows the trusted column. Hence once an identity
/// is trusted, no later run treats any spec of it — whatever its version —
/// as untrusted, and none prompts for it again.
pub proof fn lemma_trust_monotone(earlier: LedgerView, later: LedgerView, id: ToolIdView, s: ToolSpecView)
    requires
        spec_trusted(earlier, id),
        forall|x: ToolIdView| spec_trusted(earlier, x) ==> spec_trusted(later, x),
        s.id == id,
    ensures
        spec_trusted(later, id),
        spec_trusted(later, s.id),
{
}

} // verus!
