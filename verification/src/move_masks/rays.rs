use crate::bitboards::BitBoard;
use crate::bits::bit;
use crate::coordinates::Square;
use crate::geometry::{is_on_ray, on_ray};
use vstd::prelude::*;

verus! {

/// For every square, the eight rays that leave it, indexed 0 up, 1 down, 2 right, 3 left,
/// 4 up-right, 5 up-left, 6 down-right, 7 down-left.
pub struct RaysTable {
    rays: [[BitBoard; 8]; 64],
}

/// The squares on ray `dir` from `a`.
pub fn ray_mask(dir: usize, a: usize) -> (r: BitBoard)
    requires
        dir < 8,
        a < 64,
    ensures
        forall|d: int| #[trigger] r.has(d) == on_ray(dir as int, a as int, d),
{
    let mut m: u64 = 0;
    let mut d: usize = 0;
    proof {
        assert forall|x: int| #[trigger] bit(m, x) == (0 <= x < d && on_ray(dir as int, a as int, x)) by {
            crate::bits::lemma_bit_zero(x);
        }
    }
    while d < 64
        invariant
            d <= 64,
            dir < 8,
            a < 64,
            forall|x: int| #[trigger] bit(m, x) == (0 <= x < d && on_ray(dir as int, a as int, x)),
        decreases 64 - d,
    {
        let ghost old_m = m;
        if is_on_ray(dir, a, d) {
            m = m | (1u64 << (d as u64));
        }
        proof {
            assert forall|x: int| #[trigger] bit(m, x) == (0 <= x < d + 1 && on_ray(dir as int, a as int, x)) by {
                crate::bits::lemma_bit_or(old_m, 1u64 << (d as u64), x);
                crate::bits::lemma_bit_single(d as int, x);
            }
        }
        d = d + 1;
    }
    BitBoard(m)
}

impl RaysTable {
    /// The rays stored for each square index.
    pub closed spec fn rays_view(self) -> Seq<Seq<BitBoard>> {
        Seq::new(64, |i: int| self.rays@[i]@)
    }

    fn empty() -> (t: Self)
        ensures
            forall|i: int, j: int| 0 <= i < 64 && 0 <= j < 8 ==> #[trigger] t.rays_view()[i][j] == BitBoard(0),
    {
        Self { rays: [[BitBoard(0); 8]; 64] }
    }

    /// Stores the rays of one square.
    pub fn set(&mut self, square: Square, value: [BitBoard; 8])
        ensures
            final(self).rays_view() == old(self).rays_view().update(square.idx(), value@),
    {
        self.rays[square.to_index()] = value;
        assert(self.rays_view() =~= old(self).rays_view().update(square.idx(), value@));
    }

    /// Empties every ray.
    pub fn reset(&mut self)
        ensures
            forall|i: int, j: int| 0 <= i < 64 && 0 <= j < 8 ==> #[trigger] final(self).rays_view()[i][j] == BitBoard(0),
    {
        self.rays = [[BitBoard(0); 8]; 64];
    }

    /// The rays of one square.
    pub fn get(&self, square: Square) -> (r: [BitBoard; 8])
        ensures
            r@ == self.rays_view()[square.idx()],
    {
        self.rays[square.to_index()]
    }
}

impl Default for RaysTable {
    /// The table of all rays: bit `b` of ray `dir` of square `a` is set exactly when `b` lies on
    /// that ray.
    fn default() -> (t: Self)
        ensures
            forall|a: int, dir: int, b: int| 0 <= a < 64 && 0 <= dir < 8 ==>
                #[trigger] t.rays_view()[a][dir].has(b) == on_ray(dir, a, b),
    {
        let mut t = Self::empty();
        let mut s: u8 = 0;
        while s < 64
            invariant
                s <= 64,
                t.rays_view().len() == 64,
                forall|a: int, dir: int, b: int| 0 <= a < s && 0 <= dir < 8 ==>
                    #[trigger] t.rays_view()[a][dir].has(b) == on_ray(dir, a, b),
            decreases 64 - s,
        {
            let mut rays = [BitBoard(0); 8];
            let mut dir: usize = 0;
            while dir < 8
                invariant
                    dir <= 8,
                    s < 64,
                    forall|j: int, b: int| 0 <= j < dir ==> #[trigger] rays@[j].has(b) == on_ray(j, s as int, b),
                decreases 8 - dir,
            {
                rays[dir] = ray_mask(dir, s as usize);
                dir = dir + 1;
            }
            t.set(Square::from_u8(s), rays);
            s = s + 1;
        }
        t
    }
}

} // verus!
