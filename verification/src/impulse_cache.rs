//! Warm-start impulse cache for the accumulated-impulse solver.
//!
//! A contact is fingerprinted by the handles of its two bodies and its
//! midpoint quantized to a spatial grid, so a slightly drifting contact
//! still hits the same entry across ticks. Two generations are kept: the
//! previous tick's impulses seed this tick's rows, and committing the
//! solved impulses rotates the generations.

use vstd::prelude::*;
use crate::fx::{Fx, fx_abs_u, spec_abs, sat};

verus! {

/// A contact fingerprint: both body handles and the quantized midpoint.
pub type CacheKey = (u64, u64, i64, i64);

/// `x` snapped to its (toward-zero) grid cell count for cell size `cell`.
pub open spec fn spec_quantize(x: int, cell: int) -> int {
    if cell <= 0 {
        0
    } else {
        let m = spec_abs(x) / cell;
        if x < 0 {
            sat(-m)
        } else {
            sat(m)
        }
    }
}

/// Snap a coordinate to its grid cell count.
pub fn quantize(x: Fx, cell: Fx) -> (r: i64)
    ensures
        r as int == spec_quantize(x as int, cell as int),
{
    if cell <= 0 {
        0
    } else {
        let m: u64 = fx_abs_u(x) / (cell as u64);
        if x < 0 {
            if m >= 9_223_372_036_854_775_808u64 {
                i64::MIN
            } else {
                -(m as i64)
            }
        } else {
            if m > 9_223_372_036_854_775_807u64 {
                i64::MAX
            } else {
                m as i64
            }
        }
    }
}

/// Some entry of `keys` equals `k`.
pub open spec fn has_cache_key(keys: Seq<CacheKey>, k: CacheKey) -> bool {
    exists|i: int| 0 <= i < keys.len() && keys[i] == k
}

/// Warm-start impulse cache with two generations.
pub struct ImpulseCache {
    /// Quantization cell size of the contact midpoint.
    pub cell: Fx,
    /// Fingerprints of this tick's contacts, in insertion order.
    pub keys: Vec<CacheKey>,
    /// Constraint index of each entry.
    pub cis: Vec<usize>,
    /// Warm-start impulses of each entry: normal and tangent.
    pub warms: Vec<(Fx, Fx)>,
    /// Fingerprints of the previous generation.
    pub prev_keys: Vec<CacheKey>,
    /// Solved impulses of the previous generation.
    pub prev_imps: Vec<(Fx, Fx)>,
}

impl ImpulseCache {
    /// The parallel vectors agree and no fingerprint repeats.
    pub open spec fn wf(self) -> bool {
        &&& self.cis@.len() == self.keys@.len()
        &&& self.warms@.len() == self.keys@.len()
        &&& self.prev_imps@.len() == self.prev_keys@.len()
        &&& forall|i: int, j: int|
            0 <= i < j < self.keys@.len() ==> #[trigger] self.keys@[i] != #[trigger] self.keys@[j]
    }

    /// An empty cache over the given quantization cell.
    pub fn new(cell: Fx) -> (r: ImpulseCache)
        requires
            cell > 0,
        ensures
            r.wf(),
            r.cell == cell,
            r.keys@.len() == 0,
            r.prev_keys@.len() == 0,
    {
        ImpulseCache {
            cell,
            keys: Vec::new(),
            cis: Vec::new(),
            warms: Vec::new(),
            prev_keys: Vec::new(),
            prev_imps: Vec::new(),
        }
    }

    /// Number of contacts cached this tick.
    pub fn len(&self) -> (r: usize)
        ensures
            r == self.keys@.len(),
    {
        self.keys.len()
    }

    /// Position of `k` in the previous generation, if any.
    fn find_prev(&self, k: CacheKey) -> (r: Option<usize>)
        ensures
            match r {
                Some(i) => i < self.prev_keys@.len() && self.prev_keys@[i as int] == k,
                None => !has_cache_key(self.prev_keys@, k),
            },
    {
        let mut i: usize = 0;
        while i < self.prev_keys.len()
            invariant
                i <= self.prev_keys@.len(),
                forall|j: int| 0 <= j < i ==> self.prev_keys@[j] != k,
            decreases self.prev_keys@.len() - i,
        {
            let e = self.prev_keys[i];
            if e.0 == k.0 && e.1 == k.1 && e.2 == k.2 && e.3 == k.3 {
                proof {
                    assert(self.prev_keys@[i as int] == k);
                }
                return Some(i);
            }
            i += 1;
        }
        None
    }

    /// Position of `k` among this tick's entries, if any.
    fn find_curr(&self, k: CacheKey) -> (r: Option<usize>)
        ensures
            match r {
                Some(i) => i < self.keys@.len() && self.keys@[i as int] == k,
                None => !has_cache_key(self.keys@, k),
            },
    {
        let mut i: usize = 0;
        while i < self.keys.len()
            invariant
                i <= self.keys@.len(),
                forall|j: int| 0 <= j < i ==> self.keys@[j] != k,
            decreases self.keys@.len() - i,
        {
            let e = self.keys[i];
            if e.0 == k.0 && e.1 == k.1 && e.2 == k.2 && e.3 == k.3 {
                proof {
                    assert(self.keys@[i as int] == k);
                }
                return Some(i);
            }
            i += 1;
        }
        None
    }

    /// Record that constraint `ci` is the contact fingerprinted by the two
    /// body handles and the quantized midpoint. A fingerprint already seen
    /// this tick keeps its warm impulses and is re-pointed at `ci`; a new
    /// one warm-starts from the previous generation, or from zero.
    pub fn insert(&mut self, ci: usize, ida: u64, idb: u64, cx: Fx, cy: Fx)
        requires
            old(self).wf(),
        ensures
            final(self).wf(),
            final(self).cell == old(self).cell,
            final(self).prev_keys@ == old(self).prev_keys@,
            final(self).prev_imps@ == old(self).prev_imps@,
            ({
                let k = (
                    ida,
                    idb,
                    spec_quantize(cx as int, old(self).cell as int) as i64,
                    spec_quantize(cy as int, old(self).cell as int) as i64,
                );
                if has_cache_key(old(self).keys@, k) {
                    &&& final(self).keys@ == old(self).keys@
                    &&& final(self).warms@ == old(self).warms@
                    &&& exists|i: int|
                        0 <= i < old(self).keys@.len() && old(self).keys@[i] == k && final(self).cis@ == old(self).cis@.update(i, ci)
                } else {
                    &&& final(self).keys@ == old(self).keys@.push(k)
                    &&& final(self).cis@ == old(self).cis@.push(ci)
                    &&& final(self).warms@.len() == old(self).warms@.len() + 1
                    &&& forall|i: int|
                        0 <= i < old(self).warms@.len() ==> #[trigger] final(self).warms@[i]
                            == old(self).warms@[i]
                    &&& (has_cache_key(old(self).prev_keys@, k) ==> exists|i: int|
                        0 <= i < old(self).prev_keys@.len() && old(self).prev_keys@[i] == k
                            && final(self).warms@.last() == old(self).prev_imps@[i])
                    &&& (!has_cache_key(old(self).prev_keys@, k) ==> final(self).warms@.last()
                        == (0i64, 0i64))
                }
            }),
    {
        let k: CacheKey = (ida, idb, quantize(cx, self.cell), quantize(cy, self.cell));
        match self.find_curr(k) {
            Some(i) => {
                self.cis.set(i, ci);
            },
            None => {
                let warm: (Fx, Fx) = match self.find_prev(k) {
                    Some(p) => self.prev_imps[p],
                    None => (0, 0),
                };
                self.keys.push(k);
                self.cis.push(ci);
                self.warms.push(warm);
                proof {
                    assert forall|i: int, j: int|
                        0 <= i < j < self.keys@.len() implies #[trigger] self.keys@[i] != (
                    #[trigger] self.keys@[j]) by {
                        if j == self.keys@.len() - 1 {
                            assert(self.keys@[i] == old(self).keys@[i]);
                        } else {
                            assert(self.keys@[i] == old(self).keys@[i]);
                            assert(self.keys@[j] == old(self).keys@[j]);
                        }
                    }
                }
            },
        }
    }

    /// Constraint index of entry `k`.
    pub fn entry_ci(&self, k: usize) -> (r: usize)
        requires
            self.wf(),
            k < self.keys@.len(),
        ensures
            r == self.cis@[k as int],
    {
        self.cis[k]
    }

    /// Warm-start impulses of entry `k`: normal and tangent.
    pub fn entry_warm(&self, k: usize) -> (r: (Fx, Fx))
        requires
            self.wf(),
            k < self.keys@.len(),
        ensures
            r == self.warms@[k as int],
    {
        self.warms[k]
    }

    /// Store the solved impulses and rotate the generations: this tick's
    /// fingerprints and impulses become the previous generation, and the
    /// current one empties.
    pub fn commit_and_swap(&mut self, imps: &Vec<(Fx, Fx)>)
        requires
            old(self).wf(),
            imps@.len() == old(self).keys@.len(),
        ensures
            final(self).wf(),
            final(self).cell == old(self).cell,
            final(self).prev_keys@ == old(self).keys@,
            final(self).prev_imps@ == imps@,
            final(self).keys@.len() == 0,
            final(self).cis@.len() == 0,
            final(self).warms@.len() == 0,
    {
        let mut pk: Vec<CacheKey> = Vec::new();
        let mut pi: Vec<(Fx, Fx)> = Vec::new();
        core::mem::swap(&mut pk, &mut self.keys);
        let mut c: usize = 0;
        while c < imps.len()
            invariant
                c <= imps@.len(),
                pi@ == imps@.subrange(0, c as int),
            decreases imps@.len() - c,
        {
            pi.push(imps[c]);
            c += 1;
        }
        proof {
            assert(pi@ =~= imps@);
        }
        self.prev_keys = pk;
        self.prev_imps = pi;
        self.keys = Vec::new();
        self.cis = Vec::new();
        self.warms = Vec::new();
    }
}

}
