//! Lattice permutations of a value-noise texture.
//!
//! Each axis has a random permutation of `0..POINT_COUNT`; a lattice cell is
//! hashed to one of `POINT_COUNT` random values by combining the three
//! permuted coordinates with exclusive or.

use rand::Rng;

use vstd::prelude::*;

verus! {

broadcast use vstd::seq_lib::group_to_multiset_ensures;

/// Number of lattice points per axis, and of random values.
pub const POINT_COUNT: usize = 256;

/// The identity ordering of `0..n`.
pub open spec fn identity(n: nat) -> Seq<usize> {
    Seq::new(n, |i: int| i as usize)
}

/// `s` is an ordering of `0..POINT_COUNT`.
pub open spec fn is_perm(s: Seq<usize>) -> bool {
    s.len() == POINT_COUNT && s.to_multiset() == identity(POINT_COUNT as nat).to_multiset()
}

/// Relies on rand's `Rng::gen_range` over `0..=i` with the thread-local generator:
/// an inclusive range from zero is never empty, and the value drawn lies in it.
#[verifier::external_body]
fn random_up_to(i: usize) -> (r: usize)
    ensures
        r <= i,
{
    rand::thread_rng().gen_range(0..=i)
}

/// Every item of an ordering of `0..POINT_COUNT` is below `POINT_COUNT`.
pub proof fn lemma_perm_in_range(s: Seq<usize>, k: int)
    requires
        is_perm(s),
        0 <= k < s.len(),
    ensures
        s[k] < POINT_COUNT,
{
    let id = identity(POINT_COUNT as nat);
    assert(s.to_multiset().count(s[k]) > 0);
    assert(id.to_multiset().count(s[k]) > 0);
    assert(id.contains(s[k]));
}

/// Generates a random permutation of `0..POINT_COUNT`: from the last place down,
/// each place swaps with one of the places up to it.
pub fn gen_perm() -> (r: Vec<usize>)
    ensures
        is_perm(r@),
{
    let mut perm: Vec<usize> = Vec::new();
    let mut n: usize = 0;
    while n < POINT_COUNT
        invariant
            n <= POINT_COUNT,
            perm@ == identity(n as nat),
        decreases POINT_COUNT - n,
    {
        perm.push(n);
        n = n + 1;
        assert(perm@ =~= identity(n as nat));
    }
    let ghost start = perm@;
    let mut i: usize = POINT_COUNT;
    while i > 0
        invariant
            i <= POINT_COUNT,
            perm@.len() == POINT_COUNT,
            perm@.to_multiset() == start.to_multiset(),
            start == identity(POINT_COUNT as nat),
        decreases i,
    {
        i = i - 1;
        let target = random_up_to(i);
        let a = perm[i];
        let b = perm[target];
        let ghost before = perm@;
        perm[i] = b;
        let ghost mid = perm@;
        perm[target] = a;
        proof {
            if i != target {
                assert(mid.to_multiset() == before.to_multiset().insert(b).remove(a));
                assert(perm@.to_multiset() == mid.to_multiset().insert(a).remove(b));
                assert(perm@.to_multiset() =~= before.to_multiset());
            } else {
                assert(perm@ =~= before);
            }
        }
    }
    perm
}

/// Three lattice permutations, one per axis.
#[derive(Clone, Debug)]
pub struct LatticePerm {
    pub perm_x: Vec<usize>,
    pub perm_y: Vec<usize>,
    pub perm_z: Vec<usize>,
}

/// A lattice coordinate wrapped onto `0..POINT_COUNT`.
pub open spec fn wrap(c: isize) -> int {
    (c & 255isize) as int
}

impl LatticePerm {
    /// Each axis holds an ordering of `0..POINT_COUNT`.
    pub open spec fn wf(&self) -> bool {
        is_perm(self.perm_x@) && is_perm(self.perm_y@) && is_perm(self.perm_z@)
    }

    /// The index of the random value for lattice cell `(i, j, k)`.
    pub open spec fn spec_index(&self, i: isize, j: isize, k: isize) -> usize {
        self.perm_x@[wrap(i)] ^ self.perm_y@[wrap(j)] ^ self.perm_z@[wrap(k)]
    }

    /// Draws three independent permutations.
    pub fn new() -> (r: LatticePerm)
        ensures
            r.wf(),
    {
        LatticePerm { perm_x: gen_perm(), perm_y: gen_perm(), perm_z: gen_perm() }
    }

    /// The index, below `POINT_COUNT`, of the random value for lattice cell
    /// `(i, j, k)`; each coordinate wraps around modulo `POINT_COUNT`.
    pub fn index(&self, i: isize, j: isize, k: isize) -> (r: usize)
        requires
            self.wf(),
        ensures
            r == self.spec_index(i, j, k),
            r < POINT_COUNT,
    {
        let ii = i & 255;
        let jj = j & 255;
        let kk = k & 255;
        assert(0 <= ii < 256 && 0 <= jj < 256 && 0 <= kk < 256) by (bit_vector)
            requires
                ii == i & 255,
                jj == j & 255,
                kk == k & 255,
        ;
        let px = self.perm_x[ii as usize];
        let py = self.perm_y[jj as usize];
        let pz = self.perm_z[kk as usize];
        proof {
            lemma_perm_in_range(self.perm_x@, ii as int);
            lemma_perm_in_range(self.perm_y@, jj as int);
            lemma_perm_in_range(self.perm_z@, kk as int);
        }
        let r = px ^ py ^ pz;
        assert(r < 256) by (bit_vector)
            requires
                px < 256,
                py < 256,
                pz < 256,
                r == px ^ py ^ pz,
        ;
        r
    }
}

} // verus!
