//! The tables behind gradient noise: three permutations of `0..256` and a
//! table of gradients, with the lattice lookup that reads them.

use vstd::prelude::*;
use crate::rng::{spec_advance, spec_random_int, Rng};
use crate::vec3::Vec3;

verus! {

/// The length of every table.
pub const POINT_COUNT: usize = 256;

/// `s` with the entries at `i` and `j` exchanged.
pub open spec fn spec_swap(s: Seq<i32>, i: int, j: int) -> Seq<i32> {
    s.update(i, s[j]).update(j, s[i])
}

/// `s` shuffled from position `i` downwards: each position from `i` to 1
/// is exchanged with one at or below it, drawn from the generator. Yields the
/// shuffled sequence and the generator's state afterwards.
pub open spec fn shuffle(s: Seq<i32>, i: int, state: u64) -> (Seq<i32>, u64)
    decreases i,
{
    if i <= 0 {
        (s, state)
    } else {
        shuffle(
            spec_swap(s, i, spec_random_int(state, 0, i as i32)),
            i - 1,
            spec_advance(state),
        )
    }
}

/// The sequence `0, 1, ..., 255`.
pub open spec fn identity_table() -> Seq<i32> {
    Seq::new(POINT_COUNT as nat, |i: int| i as i32)
}

/// Three shuffled identity tables, drawn one after the other, with the
/// generator's state after the last.
pub struct Tables {
    pub x: Seq<i32>,
    pub y: Seq<i32>,
    pub z: Seq<i32>,
    pub state: u64,
}

/// The tables that a generator in `state` yields.
pub open spec fn spec_tables(state: u64) -> Tables {
    let first = shuffle(identity_table(), POINT_COUNT - 1, state);
    let second = shuffle(identity_table(), POINT_COUNT - 1, first.1);
    let third = shuffle(identity_table(), POINT_COUNT - 1, second.1);
    Tables { x: first.0, y: second.0, z: third.0, state: third.1 }
}

/// Every entry is an index into a table.
pub open spec fn in_table(s: Seq<i32>) -> bool {
    forall|i: int| 0 <= i < s.len() ==> 0 <= #[trigger] s[i] < POINT_COUNT
}

/// Shuffling rearranges: it keeps every entry, as often as it occurred.
pub proof fn lemma_shuffle_permutes(s: Seq<i32>, i: int, state: u64)
    requires
        i < s.len(),
        i <= i32::MAX,
    ensures
        shuffle(s, i, state).0.len() == s.len(),
        shuffle(s, i, state).0.to_multiset() == s.to_multiset(),
    decreases i,
{
    if i > 0 {
        let j = spec_random_int(state, 0, i as i32);
        assert(0 <= j <= i) by {
            assert(0 <= (crate::rng::spec_output(state) as int) % (i + 1) < i + 1);
        }
        let swapped = spec_swap(s, i, j);
        let first = s.update(i, s[j]);
        vstd::seq_lib::to_multiset_update(s, i, s[j]);
        vstd::seq_lib::to_multiset_update(first, j, s[i]);
        assert(first[j] == s[j]);
        assert(swapped.to_multiset() =~= s.to_multiset()) by {
            broadcast use vstd::multiset::group_multiset_axioms;

            s.to_multiset_ensures();
            assert(s.contains(s[i]) && s.contains(s[j]));
            assert(s.to_multiset().count(s[i]) > 0);
            assert(s.to_multiset().count(s[j]) > 0);
        }
        lemma_shuffle_permutes(swapped, i - 1, spec_advance(state));
    }
}

/// A shuffled identity table holds every index exactly once.
pub proof fn lemma_shuffled_identity(state: u64)
    ensures
        shuffle(identity_table(), POINT_COUNT - 1, state).0.len() == POINT_COUNT,
        in_table(shuffle(identity_table(), POINT_COUNT - 1, state).0),
        forall|v: i32|
            0 <= v < POINT_COUNT ==> #[trigger] shuffle(
                identity_table(),
                POINT_COUNT - 1,
                state,
            ).0.to_multiset().count(v) == 1,
{
    let id = identity_table();
    let out = shuffle(id, POINT_COUNT - 1, state).0;
    lemma_shuffle_permutes(id, POINT_COUNT - 1, state);
    assert forall|i: int| 0 <= i < out.len() implies 0 <= #[trigger] out[i] < POINT_COUNT by {
        out.to_multiset_ensures();
        id.to_multiset_ensures();
        assert(out.contains(out[i]));
        assert(out.to_multiset().count(out[i]) > 0);
        assert(id.contains(out[i]));
        let j = choose|j: int| 0 <= j < id.len() && id[j] == out[i];
    }
    assert(id.no_duplicates());
    id.lemma_multiset_has_no_duplicates();
    assert forall|v: i32| 0 <= v < POINT_COUNT implies #[trigger] out.to_multiset().count(v) == 1 by {
        id.to_multiset_ensures();
        assert(id[v as int] == v);
        assert(id.contains(v));
    }
}

/// Gradient-noise tables.
pub struct Perlin {
    ran_vec: [Vec3; 256],
    perm_x: [i32; 256],
    perm_y: [i32; 256],
    perm_z: [i32; 256],
}

impl Perlin {
    #[verifier::type_invariant]
    spec fn inv(self) -> bool {
        in_table(self.perm_x@) && in_table(self.perm_y@) && in_table(self.perm_z@)
    }

    /// The gradients.
    pub closed spec fn gradients(self) -> Seq<Vec3> {
        self.ran_vec@
    }

    /// The permutation for the first coordinate.
    pub closed spec fn table_x(self) -> Seq<i32> {
        self.perm_x@
    }

    /// The permutation for the second coordinate.
    pub closed spec fn table_y(self) -> Seq<i32> {
        self.perm_y@
    }

    /// The permutation for the third coordinate.
    pub closed spec fn table_z(self) -> Seq<i32> {
        self.perm_z@
    }

    /// The index of the gradient at a lattice point: the three table entries
    /// at the low eight bits of its coordinates, combined by exclusive or.
    pub open spec fn spec_lattice(self, i: i32, j: i32, k: i32) -> int {
        (self.table_x()[(i & 255) as int] ^ self.table_y()[(j & 255) as int] ^ self.table_z()[(k
            & 255) as int]) as int
    }

    /// Shuffles the first `n` entries of `tmp`.
    pub fn permute(tmp: &mut [i32; 256], n: i32, rng: &mut Rng)
        requires
            n <= POINT_COUNT,
        ensures
            final(tmp)@ == shuffle(old(tmp)@, n - 1, old(rng).state).0,
            final(rng).state == shuffle(old(tmp)@, n - 1, old(rng).state).1,
    {
        if n <= 1 {
            return ;
        }
        let mut i: i32 = n - 1;
        while i > 0
            invariant
                0 <= i < n <= POINT_COUNT,
                shuffle(tmp@, i as int, rng.state) == shuffle(
                    old(tmp)@,
                    n - 1,
                    old(rng).state,
                ),
            decreases i,
        {
            let target = rng.random_int(0, i) as usize;
            let a = tmp[i as usize];
            let b = tmp[target];
            tmp[i as usize] = b;
            tmp[target] = a;
            i -= 1;
        }
    }

    /// A fresh permutation of `0..256`.
    pub fn perlin_generate_perm(rng: &mut Rng) -> (tmp: [i32; 256])
        ensures
            tmp@ == shuffle(identity_table(), POINT_COUNT - 1, old(rng).state).0,
            final(rng).state == shuffle(identity_table(), POINT_COUNT - 1, old(rng).state).1,
            in_table(tmp@),
    {
        let mut tmp = [0i32;256];
        let mut i: usize = 0;
        while i < POINT_COUNT
            invariant
                i <= POINT_COUNT,
                forall|k: int| 0 <= k < i ==> tmp@[k] == k,
            decreases POINT_COUNT - i,
        {
            tmp[i] = i as i32;
            i += 1;
        }
        assert(tmp@ =~= identity_table());
        proof {
            lemma_shuffled_identity(rng.state);
        }
        Perlin::permute(&mut tmp, POINT_COUNT as i32, rng);
        tmp
    }

    /// Noise tables over the given gradients, with three permutations drawn
    /// one after the other from `rng`.
    pub fn new(ran_vec: [Vec3; 256], rng: &mut Rng) -> (p: Self)
        ensures
            p.gradients() == ran_vec@,
            p.table_x() == spec_tables(old(rng).state).x,
            p.table_y() == spec_tables(old(rng).state).y,
            p.table_z() == spec_tables(old(rng).state).z,
            final(rng).state == spec_tables(old(rng).state).state,
    {
        let perm_x = Self::perlin_generate_perm(rng);
        let perm_y = Self::perlin_generate_perm(rng);
        let perm_z = Self::perlin_generate_perm(rng);
        Self { ran_vec, perm_x, perm_y, perm_z }
    }

    /// The gradient at the lattice point `(i, j, k)`.
    pub fn gradient(&self, i: i32, j: i32, k: i32) -> (g: Vec3)
        ensures
            0 <= self.spec_lattice(i, j, k) < POINT_COUNT,
            g == self.gradients()[self.spec_lattice(i, j, k)],
    {
        proof {
            use_type_invariant(self);
        }
        let a = i & 255;
        let b = j & 255;
        let c = k & 255;
        assert(0 <= a < 256) by (bit_vector)
            requires
                a == i & 255,
        ;
        assert(0 <= b < 256) by (bit_vector)
            requires
                b == j & 255,
        ;
        assert(0 <= c < 256) by (bit_vector)
            requires
                c == k & 255,
        ;
        let px = self.perm_x[a as usize];
        let py = self.perm_y[b as usize];
        let pz = self.perm_z[c as usize];
        let index = px ^ py ^ pz;
        assert(0 <= index < 256) by (bit_vector)
            requires
                index == px ^ py ^ pz,
                0 <= px < 256,
                0 <= py < 256,
                0 <= pz < 256,
        ;
        self.ran_vec[index as usize]
    }

    /// The gradients at the eight corners of the lattice cell at
    /// `(i, j, k)`: entry `4 * di + 2 * dj + dk` belongs to the corner
    /// `(i + di, j + dj, k + dk)`, coordinates wrapping around.
    pub fn noise(&self, i: i32, j: i32, k: i32) -> (c: [Vec3; 8])
        ensures
            forall|di: i32, dj: i32, dk: i32|
                0 <= di < 2 && 0 <= dj < 2 && 0 <= dk < 2 ==> c@[4 * di + 2 * dj + dk]
                    == self.gradients()[#[trigger] self.spec_lattice(
                    i.wrapping_add(di),
                    j.wrapping_add(dj),
                    k.wrapping_add(dk),
                )],
    {
        let i1 = i.wrapping_add(1);
        let j1 = j.wrapping_add(1);
        let k1 = k.wrapping_add(1);
        assert(i.wrapping_add(0) == i && j.wrapping_add(0) == j && k.wrapping_add(0) == k);
        [
            self.gradient(i, j, k),
            self.gradient(i, j, k1),
            self.gradient(i, j1, k),
            self.gradient(i, j1, k1),
            self.gradient(i1, j, k),
            self.gradient(i1, j, k1),
            self.gradient(i1, j1, k),
            self.gradient(i1, j1, k1),
        ]
    }
}

} // verus!
