//! Tool identities, fully-qualified tool specs, and invocation aliases.
//!
//! Names are byte strings (ASCII in practice); a name is well formed when it
//! is nonempty and free of path separators.

use vstd::prelude::*;

use crate::version::Version;

verus! {

/// The artifact host that releases of a tool are fetched from.
#[derive(Clone, Copy, Debug, PartialEq, Eq, Structural)]
pub enum Provider {
    GitHub,
}

/// Version-independent identity of a tool; the trust ledger's key.
#[derive(Debug)]
pub struct ToolId {
    pub provider: Provider,
    pub author: Vec<u8>,
    pub name: Vec<u8>,
}

/// Mathematical value of a [`ToolId`].
pub struct ToolIdView {
    pub provider: Provider,
    pub author: Seq<u8>,
    pub name: Seq<u8>,
}

impl View for ToolId {
    type V = ToolIdView;

    open spec fn view(&self) -> ToolIdView {
        ToolIdView { provider: self.provider, author: self.author@, name: self.name@ }
    }
}

/// A fully-qualified, immutable install target: an identity at an exact
/// version.
#[derive(Debug)]
pub struct ToolSpec {
    pub id: ToolId,
    pub version: Version,
}

/// Mathematical value of a [`ToolSpec`].
pub struct ToolSpecView {
    pub id: ToolIdView,
    pub version: Version,
}

impl View for ToolSpec {
    type V = ToolSpecView;

    open spec fn view(&self) -> ToolSpecView {
        ToolSpecView { id: self.id@, version: self.version }
    }
}

/// An invocation name, bound to a spec by manifest lookup.
#[derive(Debug)]
pub struct ToolAlias {
    pub name: Vec<u8>,
}

impl View for ToolAlias {
    type V = Seq<u8>;

    open spec fn view(&self) -> Seq<u8> {
        self.name@
    }
}

/// A name is well formed when it is nonempty and holds no path separator.
pub open spec fn wf_name(s: Seq<u8>) -> bool {
    &&& s.len() > 0
    &&& forall|i: int| 0 <= i < s.len() ==> s[i] != 47u8 && s[i] != 92u8
}

/// A tool identity is well formed when both of its name parts are.
pub open spec fn wf_id(id: ToolIdView) -> bool {
    wf_name(id.author) && wf_name(id.name)
}

/// A tool spec is well formed when its identity is.
pub open spec fn wf_spec(s: ToolSpecView) -> bool {
    wf_id(s.id)
}

/// Byte-string equality.
pub fn bytes_eq(a: &Vec<u8>, b: &Vec<u8>) -> (r: bool)
    ensures
        r == (a@ == b@),
{
    if a.len() != b.len() {
        return false;
    }
    let mut i: usize = 0;
    while i < a.len()
        invariant
            0 <= i <= a.len(),
            a.len() == b.len(),
            forall|k: int| 0 <= k < i ==> a@[k] == b@[k],
        decreases a.len() - i,
    {
        if a[i] != b[i] {
            return false;
        }
        i += 1;
    }
    proof {
        assert(a@ =~= b@);
    }
    true
}

impl ToolId {
    /// Structural equality of identities.
    pub fn is_same_id(&self, other: &ToolId) -> (r: bool)
        ensures
            r == (self@ == other@),
    {
        let r = self.provider == other.provider && bytes_eq(&self.author, &other.author)
            && bytes_eq(&self.name, &other.name);
        proof {
            if self.provider == other.provider && self.author@ == other.author@ && self.name@
                == other.name@ {
                assert(self@ == other@);
            }
        }
        r
    }
}

impl ToolId {
    /// A structurally equal copy.
    pub fn duplicate(&self) -> (r: ToolId)
        ensures
            r@ == self@,
    {
        ToolId {
            provider: self.provider,
            author: clone_bytes(&self.author),
            name: clone_bytes(&self.name),
        }
    }
}

impl ToolSpec {
    /// A structurally equal copy.
    pub fn duplicate(&self) -> (r: ToolSpec)
        ensures
            r@ == self@,
    {
        ToolSpec { id: self.id.duplicate(), version: self.version }
    }

    /// Structural equality of specs.
    pub fn is_same_spec(&self, other: &ToolSpec) -> (r: bool)
        ensures
            r == (self@ == other@),
    {
        let r = self.id.is_same_id(&other.id) && self.version == other.version;
        proof {
            if self.id@ == other.id@ && self.version == other.version {
                assert(self@ == other@);
            }
        }
        r
    }
}

impl ToolAlias {
    /// A structurally equal copy.
    pub fn duplicate(&self) -> (r: ToolAlias)
        ensures
            r@ == self@,
    {
        ToolAlias { name: clone_bytes(&self.name) }
    }

    /// Structural equality of aliases.
    pub fn is_same_alias(&self, other: &ToolAlias) -> (r: bool)
        ensures
            r == (self@ == other@),
    {
        bytes_eq(&self.name, &other.name)
    }
}

/// The identity that `author/name` text denotes: the two well-formed parts
/// around a single separator, or `None` where the text is not of that shape.
pub open spec fn parsed_id(provider: Provider, s: Seq<u8>) -> Option<ToolIdView> {
    if exists|i: int|
        0 <= i < s.len() && s[i] == 47u8 && wf_name(s.take(i)) && wf_name(
            s.skip(i + 1),
        ) {
        let i = choose|i: int|
            0 <= i < s.len() && s[i] == 47u8 && wf_name(s.take(i)) && wf_name(s.skip(i + 1));
        Some(ToolIdView { provider, author: s.take(i), name: s.skip(i + 1) })
    } else {
        None
    }
}

/// Splits `author/name` text into a tool identity.
///
/// Returns `Some` exactly when the text consists of two well-formed names
/// around a single `/`; the well-formedness of the parts makes the separator
/// position, and so the result, unique.
pub fn parse_tool_id(provider: Provider, s: &Vec<u8>) -> (r: Option<ToolId>)
    ensures
        match r {
            Some(id) => {
                &&& parsed_id(provider, s@) == Some(id@)
                &&& wf_id(id@)
                &&& id@.provider == provider
            },
            None => parsed_id(provider, s@) is None,
        },
{
    let mut slash: usize = 0;
    let mut found = false;
    let mut i: usize = 0;
    while i < s.len()
        invariant
            0 <= i <= s.len(),
            !found ==> forall|k: int| 0 <= k < i ==> s@[k] != 47u8,
            found ==> 0 <= slash < i && s@[slash as int] == 47u8,
            found ==> forall|k: int| 0 <= k < slash ==> s@[k] != 47u8,
        decreases s.len() - i,
    {
        if !found && s[i] == 47u8 {
            slash = i;
            found = true;
        }
        i += 1;
    }
    if !found {
        proof {
            assert forall|j: int|
                !(0 <= j < s@.len() && s@[j] == 47u8 && wf_name(s@.take(j)) && wf_name(
                    s@.skip(j + 1),
                )) by {
                if 0 <= j < s@.len() {
                    assert(s@[j] != 47u8);
                }
            }
        }
        return None;
    }
    let author_ok = range_wf(s, 0, slash);
    let name_ok = range_wf(s, slash + 1, s.len());
    proof {
        let si = slash as int;
        assert(s@.take(si) =~= s@.subrange(0, si));
        assert(s@.skip(si + 1) =~= s@.subrange(si + 1, s@.len() as int));
    }
    if author_ok && name_ok {
        let author = slice_to_vec(s, 0, slash);
        let name = slice_to_vec(s, slash + 1, s.len());
        let id = ToolId { provider, author, name };
        proof {
            let si = slash as int;
            assert(id.author@ =~= s@.take(si));
            assert(id.name@ =~= s@.skip(si + 1));
            assert(wf_name(s@.take(si)));
            assert(wf_name(s@.skip(si + 1)));
            assert(exists|i: int|
                0 <= i < s@.len() && s@[i] == 47u8 && wf_name(s@.take(i)) && wf_name(
                    s@.skip(i + 1),
                ));
            let w = choose|i: int|
                0 <= i < s@.len() && s@[i] == 47u8 && wf_name(s@.take(i)) && wf_name(
                    s@.skip(i + 1),
                );
            // Any witness separator is the first one: a well-formed author
            // part holds no separator, so no witness lies past `slash`
            // either side.
            if w != si {
                if w < si {
                    assert(s@.take(si)[w] == 47u8);
                    assert(!wf_name(s@.take(si)));
                } else {
                    assert(s@.skip(w + 1) =~= s@.skip(si + 1).skip(w - si));
                    assert(s@[w] == s@.skip(si + 1)[w - si - 1]);
                    assert(!wf_name(s@.skip(si + 1)));
                }
            }
            assert(w == si);
        }
        Some(id)
    } else {
        proof {
            let si = slash as int;
            assert forall|jj: int|
                !(0 <= jj < s@.len() && s@[jj] == 47u8 && wf_name(s@.take(jj)) && wf_name(
                    s@.skip(jj + 1),
                )) by {
                if 0 <= jj < s@.len() && s@[jj] == 47u8 {
                    if jj < si {
                        assert(s@[jj] != 47u8);
                    } else if jj > si {
                        assert(s@.take(jj)[si] == 47u8);
                        assert(!wf_name(s@.take(jj)));
                    } else {
                        assert(s@.take(jj) =~= s@.subrange(0, si));
                        assert(s@.skip(jj + 1) =~= s@.subrange(si + 1, s@.len() as int));
                    }
                }
            }
        }
        None
    }
}

/// Checks that the bytes of `s` in positions `from..to` form a well-formed
/// name: the range is nonempty and holds no path separator.
pub fn range_wf(s: &Vec<u8>, from: usize, to: usize) -> (r: bool)
    requires
        0 <= from <= to <= s@.len(),
    ensures
        r == wf_name(s@.subrange(from as int, to as int)),
{
    let ghost sub = s@.subrange(from as int, to as int);
    if from == to {
        return false;
    }
    let mut i: usize = from;
    while i < to
        invariant
            from <= i <= to <= s@.len(),
            from < to,
            sub == s@.subrange(from as int, to as int),
            forall|k: int| from <= k < i ==> s@[k] != 47u8 && s@[k] != 92u8,
        decreases to - i,
    {
        if s[i] == 47u8 || s[i] == 92u8 {
            proof {
                assert(sub[i - from] == s@[i as int]);
            }
            return false;
        }
        i += 1;
    }
    proof {
        assert forall|k: int| 0 <= k < sub.len() implies sub[k] != 47u8 && sub[k] != 92u8 by {
            assert(sub[k] == s@[from + k]);
        }
    }
    true
}

/// Copies a byte string.
pub fn clone_bytes(s: &Vec<u8>) -> (r: Vec<u8>)
    ensures
        r@ == s@,
{
    let r = slice_to_vec(s, 0, s.len());
    proof {
        assert(s@.subrange(0, s@.len() as int) =~= s@);
    }
    r
}

/// Copies the bytes of `s` in positions `from..to` into a fresh vector.
pub fn slice_to_vec(s: &Vec<u8>, from: usize, to: usize) -> (r: Vec<u8>)
    requires
        0 <= from <= to <= s@.len(),
    ensures
        r@ == s@.subrange(from as int, to as int),
{
    let mut r: Vec<u8> = Vec::new();
    let mut i: usize = from;
    while i < to
        invariant
            from <= i <= to <= s@.len(),
            r@ == s@.subrange(from as int, i as int),
        decreases to - i,
    {
        r.push(s[i]);
        proof {
            assert(r@ =~= s@.subrange(from as int, i + 1));
        }
        i += 1;
    }
    r
}

} // verus!
