//! Tool storage: content-addressed binary paths, a value-level model of the
//! on-disk store, and alias link planning.
//!
//! `tool_path` is pure and I/O-free; the path of a spec is a function of the
//! spec alone and distinct specs get distinct paths, which is what makes the
//! store content-addressed and per-spec writes disjoint.

use vstd::prelude::*;
use vstd::arithmetic::div_mod::lemma_fundamental_div_mod;

use crate::tool::{clone_bytes, ToolAlias, ToolSpec, ToolSpecView};

verus! {

/// Decimal digits of `n`, most significant first.
pub open spec fn dec(n: nat) -> Seq<u8>
    decreases n,
{
    if n < 10 {
        seq![(48 + n) as u8]
    } else {
        dec(n / 10).push((48 + n % 10) as u8)
    }
}

/// Decimal digit strings are nonempty, and two digits long or more exactly
/// for numbers of ten and above.
pub proof fn lemma_dec_len(n: nat)
    ensures
        dec(n).len() >= 1,
        n >= 10 ==> dec(n).len() >= 2,
    decreases n,
{
    if n >= 10 {
        lemma_dec_len(n / 10);
    }
}

/// Decimal rendering is injective.
pub proof fn lemma_dec_injective(a: nat, b: nat)
    requires
        dec(a) == dec(b),
    ensures
        a == b,
    decreases a,
{
    lemma_dec_len(a);
    lemma_dec_len(b);
    assert(dec(a).last() == (48 + a % 10) as u8);
    assert(dec(b).last() == (48 + b % 10) as u8);
    assert(a % 10 == b % 10);
    if a < 10 && b < 10 {
        assert(a == a % 10 && b == b % 10);
    } else if a >= 10 && b >= 10 {
        assert(dec(a).drop_last() =~= dec(a / 10));
        assert(dec(b).drop_last() =~= dec(b / 10));
        lemma_dec_injective(a / 10, b / 10);
        lemma_fundamental_div_mod(a as int, 10);
        lemma_fundamental_div_mod(b as int, 10);
    } else {
        // One is a single digit and the other is not: the lengths differ.
        assert(false);
    }
}

/// Renders `n` in decimal.
pub fn dec_bytes(n: u64) -> (r: Vec<u8>)
    ensures
        r@ == dec(n as nat),
    decreases n,
{
    if n < 10 {
        let mut r: Vec<u8> = Vec::new();
        r.push(48 + (n as u8));
        proof {
            assert(r@ =~= dec(n as nat));
        }
        r
    } else {
        let mut r = dec_bytes(n / 10);
        r.push(48 + ((n % 10) as u8));
        proof {
            assert(r@ =~= dec(n as nat));
        }
        r
    }
}

/// The provider's path segment.
pub open spec fn provider_segment() -> Seq<u8> {
    seq![103u8, 105u8, 116u8, 104u8, 117u8, 98u8]
}

/// The content-addressed path of a spec's binary, as path segments under the
/// storage root: provider, author, tool name, the three version numbers, and
/// the binary's file name (the tool's name again).
pub open spec fn path_of(s: ToolSpecView) -> Seq<Seq<u8>> {
    seq![
        provider_segment(),
        s.id.author,
        s.id.name,
        dec(s.version.major as nat),
        dec(s.version.minor as nat),
        dec(s.version.patch as nat),
        s.id.name,
    ]
}

/// `tool_path` determinism and injectivity: the path is a function of the
/// spec alone, and two specs share a path only when they are the same spec —
/// differing identity or version yields a different path.
pub proof fn lemma_tool_path_injective(a: ToolSpecView, b: ToolSpecView)
    ensures
        (path_of(a) == path_of(b)) <==> (a == b),
{
    if path_of(a) == path_of(b) {
        assert(path_of(a)[1] == path_of(b)[1]);
        assert(path_of(a)[2] == path_of(b)[2]);
        assert(path_of(a)[3] == path_of(b)[3]);
        assert(path_of(a)[4] == path_of(b)[4]);
        assert(path_of(a)[5] == path_of(b)[5]);
        lemma_dec_injective(a.version.major as nat, b.version.major as nat);
        lemma_dec_injective(a.version.minor as nat, b.version.minor as nat);
        lemma_dec_injective(a.version.patch as nat, b.version.patch as nat);
        assert(a.id.provider == b.id.provider);
        assert(a.version == b.version);
        assert(a.id == b.id);
    }
}

/// Computes the content-addressed path of a spec's binary.
pub fn tool_path(spec: &ToolSpec) -> (r: Vec<Vec<u8>>)
    ensures
        r@.map_values(|seg: Vec<u8>| seg@) == path_of(spec@),
{
    let mut provider: Vec<u8> = Vec::new();
    provider.push(103);
    provider.push(105);
    provider.push(116);
    provider.push(104);
    provider.push(117);
    provider.push(98);
    proof {
        assert(provider@ =~= provider_segment());
    }
    let mut r: Vec<Vec<u8>> = Vec::new();
    r.push(provider);
    r.push(clone_bytes(&spec.id.author));
    r.push(clone_bytes(&spec.id.name));
    r.push(dec_bytes(spec.version.major));
    r.push(dec_bytes(spec.version.minor));
    r.push(dec_bytes(spec.version.patch));
    r.push(clone_bytes(&spec.id.name));
    proof {
        assert(r@.map_values(|seg: Vec<u8>| seg@) =~= path_of(spec@));
    }
    r
}

/// A value-level model of the on-disk store: a journal of writes, where the
/// last write to a path wins.
pub struct Store {
    writes: Vec<(Vec<Vec<u8>>, Vec<u8>)>,
}

/// The contents a write journal leaves at `p`: the payload of the last write
/// to `p`, or `None` where `p` was never written.
pub open spec fn store_lookup(ws: Seq<(Seq<Seq<u8>>, Seq<u8>)>, p: Seq<Seq<u8>>) -> Option<
    Seq<u8>,
>
    decreases ws.len(),
{
    if ws.len() == 0 {
        None
    } else if ws.last().0 == p {
        Some(ws.last().1)
    } else {
        store_lookup(ws.drop_last(), p)
    }
}

impl View for Store {
    type V = Seq<(Seq<Seq<u8>>, Seq<u8>)>;

    closed spec fn view(&self) -> Seq<(Seq<Seq<u8>>, Seq<u8>)> {
        self.writes@.map_values(
            |w: (Vec<Vec<u8>>, Vec<u8>)| (w.0@.map_values(|seg: Vec<u8>| seg@), w.1@),
        )
    }
}

impl Store {
    /// An empty store.
    pub fn new() -> (r: Store)
        ensures
            r@.len() == 0,
    {
        Store { writes: Vec::new() }
    }

    /// Writes `contents` at the content-addressed path of `spec`,
    /// overwriting what was there: last writer wins, and no other path is
    /// touched. Writes for distinct specs land at distinct paths, so they
    /// never interfere.
    pub fn replace_tool_contents(&mut self, spec: &ToolSpec, contents: Vec<u8>)
        ensures
            store_lookup(final(self)@, path_of(spec@)) == Some(contents@),
            forall|q: Seq<Seq<u8>>| q != path_of(spec@) ==> store_lookup(final(self)@, q)
                == store_lookup(old(self)@, q),
    {
        let ghost c = contents@;
        let path = tool_path(spec);
        let ghost before = self@;
        self.writes.push((path, contents));
        proof {
            assert(self@ =~= before.push((path_of(spec@), c)));
            assert(self@.drop_last() =~= before);
        }
    }

    /// The contents stored at a path.
    pub fn read_at(&self, p: &Vec<Vec<u8>>) -> (r: Option<&Vec<u8>>)
        ensures
            match r {
                Some(c) => store_lookup(self@, p@.map_values(|seg: Vec<u8>| seg@)) == Some(c@),
                None => store_lookup(self@, p@.map_values(|seg: Vec<u8>| seg@)) is None,
            },
    {
        let ghost pv = p@.map_values(|seg: Vec<u8>| seg@);
        let mut i: usize = self.writes.len();
        proof {
            assert(self@.len() == self.writes@.len());
            assert(self@.take(i as int) =~= self@);
        }
        while i > 0
            invariant
                0 <= i <= self.writes.len(),
                pv == p@.map_values(|seg: Vec<u8>| seg@),
                store_lookup(self@, pv) == store_lookup(self@.take(i as int), pv),
            decreases i,
        {
            i -= 1;
            proof {
                assert(self@.take(i + 1).drop_last() =~= self@.take(i as int));
                assert(self@.take(i + 1).last() == self@[i as int]);
            }
            if paths_eq(&self.writes[i].0, p) {
                proof {
                    assert(self@[i as int].0 == pv);
                }
                return Some(&self.writes[i].1);
            }
            proof {
                assert(self@[i as int].0 != pv);
            }
        }
        proof {
            assert(self@.take(0).len() == 0);
        }
        None
    }
}

/// Structural equality of segment paths.
pub fn paths_eq(a: &Vec<Vec<u8>>, b: &Vec<Vec<u8>>) -> (r: bool)
    ensures
        r == (a@.map_values(|seg: Vec<u8>| seg@) == b@.map_values(|seg: Vec<u8>| seg@)),
{
    let ghost av = a@.map_values(|seg: Vec<u8>| seg@);
    let ghost bv = b@.map_values(|seg: Vec<u8>| seg@);
    if a.len() != b.len() {
        proof {
            assert(av.len() != bv.len());
        }
        return false;
    }
    let mut i: usize = 0;
    while i < a.len()
        invariant
            0 <= i <= a.len(),
            a.len() == b.len(),
            av == a@.map_values(|seg: Vec<u8>| seg@),
            bv == b@.map_values(|seg: Vec<u8>| seg@),
            forall|k: int| 0 <= k < i ==> av[k] == bv[k],
        decreases a.len() - i,
    {
        if !crate::tool::bytes_eq(&a[i], &b[i]) {
            proof {
                assert(av[i as int] == a@[i as int]@);
                assert(bv[i as int] == b@[i as int]@);
            }
            return false;
        }
        proof {
            assert(av[i as int] == a@[i as int]@);
            assert(bv[i as int] == b@[i as int]@);
        }
        i += 1;
    }
    proof {
        assert(av =~= bv);
    }
    true
}

/// An on-disk alias link: invoking the alias runs the dispatcher, which
/// resolves the alias afresh. Regenerable from the alias alone.
pub struct Link {
    pub alias: ToolAlias,
}

impl View for Link {
    type V = Seq<u8>;

    open spec fn view(&self) -> Seq<u8> {
        self.alias@
    }
}

/// Plans one link per alias, in order: after a run, every declared alias has
/// exactly one link, freshly regenerated whether or not its tool was newly
/// installed.
pub fn plan_links(aliases: &Vec<ToolAlias>) -> (r: Vec<Link>)
    ensures
        r@.len() == aliases@.len(),
        forall|k: int| 0 <= k < r@.len() ==> r@[k]@ == aliases@[k]@,
{
    let mut r: Vec<Link> = Vec::new();
    let mut i: usize = 0;
    while i < aliases.len()
        invariant
            0 <= i <= aliases.len(),
            r@.len() == i,
            forall|k: int| 0 <= k < i ==> r@[k]@ == aliases@[k]@,
        decreases aliases.len() - i,
    {
        r.push(Link { alias: ToolAlias { name: clone_bytes(&aliases[i].name) } });
        i += 1;
    }
    r
}

} // verus!
