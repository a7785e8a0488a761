//! Translational continuous collision detection by motion clamping.
//!
//! A registered body that moved further than its threshold since the last
//! tick is rewound to its earliest time of impact. The geometric queries
//! (swept volume overlap, shape-versus-shape time of impact) are external:
//! the caller runs them and hands the candidate impact times in, one list
//! per registered body, each a fraction of the step in `[0, FX_ONE]`.
//! Bodies are processed in deterministic sequential order.

use vstd::prelude::*;
use crate::fx::{Fx, FX_ONE, fmul, fsub, sfmul, sfsub};
use crate::alg::{V2, v2_sub, v2_neg, v2_scale, v2_sqnorm, sv2_sub, sv2_neg, sv2_scale,
    sv2_sqnorm, siso_append_translation};
use crate::body::RigidBody;

verus! {

/// Impact times at or below this fraction count as immediate; they are
/// honoured only while `accept_zero` is set, to suppress repeated zero-time
/// impacts.
pub const CCD_EPS: i64 = 0;

/// A body registered for continuous collision detection.
#[derive(Clone, Copy, PartialEq, Eq, Structural, Debug)]
pub struct CCDBody {
    /// Handle of the body in the arena.
    pub body: usize,
    /// Square of the motion threshold beyond which clamping runs.
    pub sqthreshold: Fx,
    /// The body's translation when it was last examined.
    pub last_pos: V2,
    /// Whether an immediate (zero-time) impact is still accepted.
    pub accept_zero: bool,
}

impl CCDBody {
    /// Registers `body` with the given motion threshold, remembering its
    /// current translation.
    pub fn new(bodies: &Vec<RigidBody>, body: usize, motion_threshold: Fx) -> (r: CCDBody)
        requires
            body < bodies@.len(),
        ensures
            r == (CCDBody {
                body,
                sqthreshold: (sfmul(motion_threshold as int, motion_threshold as int) as i64),
                last_pos: bodies@[body as int].position.tr,
                accept_zero: true,
            }),
    {
        CCDBody {
            sqthreshold: fmul(motion_threshold, motion_threshold),
            last_pos: bodies[body].position.tr,
            body,
            accept_zero: true,
        }
    }
}

/// The fold that the sequential impact scan computes over the first `k`
/// candidate impact times: whether any impact was found, and the smallest
/// accepted time (starting from one full step). A candidate at most
/// `CCD_EPS` marks an impact but lowers the time only while `accept_zero`
/// holds.
pub open spec fn spec_min_toi(tois: Seq<Fx>, accept_zero: bool, k: int) -> (bool, int)
    decreases k,
{
    if k <= 0 {
        (false, FX_ONE as int)
    } else {
        let prev = spec_min_toi(tois, accept_zero, k - 1);
        let t = tois[k - 1] as int;
        if t <= prev.1 {
            (true, if t > CCD_EPS as int || accept_zero {
                t
            } else {
                prev.1
            })
        } else {
            prev
        }
    }
}

/// Scan the candidate impact times for the earliest accepted one.
pub fn min_toi_fold(tois: &Vec<Fx>, accept_zero: bool) -> (r: (bool, Fx))
    ensures
        (r.0, r.1 as int) == spec_min_toi(tois@, accept_zero, tois@.len() as int),
{
    let mut found = false;
    let mut min_toi: Fx = FX_ONE;
    let mut k: usize = 0;
    while k < tois.len()
        invariant
            k <= tois@.len(),
            (found, min_toi as int) == spec_min_toi(tois@, accept_zero, k as int),
        decreases tois@.len() - k,
    {
        let t = tois[k];
        if t <= min_toi {
            found = true;
            if t > CCD_EPS || accept_zero {
                min_toi = t;
            }
        }
        k += 1;
    }
    (found, min_toi)
}

/// The transform of a body rewound by the unfinished part of its motion:
/// translated by `-movement` scaled with the remaining fraction of the
/// step.
pub open spec fn spec_rewound(
    pos: ((int, int), (int, int)),
    movement: (int, int),
    min_toi: int,
) -> ((int, int), (int, int)) {
    siso_append_translation(pos, sv2_scale(sv2_neg(movement), sfsub(FX_ONE as int, min_toi)))
}

/// Handles continuous collision detection.
pub struct TranslationalCCDMotionClamping {
    /// The registered bodies, each at most once.
    pub objects: Vec<CCDBody>,
}

impl TranslationalCCDMotionClamping {
    /// No body is registered twice.
    pub open spec fn wf(self) -> bool {
        forall|i: int, j: int|
            0 <= i < j < self.objects@.len() ==> (#[trigger] self.objects@[i]).body != (
            #[trigger] self.objects@[j]).body
    }

    /// Every registered handle points into the body arena.
    pub open spec fn handles_ok(self, nbodies: int) -> bool {
        forall|i: int|
            0 <= i < self.objects@.len() ==> (#[trigger] self.objects@[i]).body < nbodies
    }

    /// Creates a new `TranslationalCCDMotionClamping` to enable continuous
    /// collision detection on fast-moving rigid bodies.
    pub fn new() -> (r: TranslationalCCDMotionClamping)
        ensures
            r.objects@.len() == 0,
            r.wf(),
    {
        TranslationalCCDMotionClamping { objects: Vec::new() }
    }

    /// Position of the entry registered for `body`, if any.
    fn find_idx(&self, body: usize) -> (r: Option<usize>)
        ensures
            match r {
                Some(i) => i < self.objects@.len() && self.objects@[i as int].body == body,
                None => forall|i: int|
                    0 <= i < self.objects@.len() ==> (#[trigger] self.objects@[i]).body != body,
            },
    {
        let mut i: usize = 0;
        while i < self.objects.len()
            invariant
                i <= self.objects@.len(),
                forall|j: int| 0 <= j < i ==> (#[trigger] self.objects@[j]).body != body,
            decreases self.objects@.len() - i,
        {
            if self.objects[i].body == body {
                return Some(i);
            }
            i += 1;
        }
        None
    }

    /// Enables continuous collision detection for the given rigid body.
    /// Registering a body again resets its record.
    pub fn add_ccd_to(&mut self, bodies: &Vec<RigidBody>, body: usize, motion_threshold: Fx)
        requires
            old(self).wf(),
            body < bodies@.len(),
        ensures
            final(self).wf(),
            old(self).handles_ok(bodies@.len() as int) ==> final(self).handles_ok(
                bodies@.len() as int,
            ),
            exists|i: int|
                0 <= i < final(self).objects@.len() && final(self).objects@[i] == (CCDBody {
                    body,
                    sqthreshold: (sfmul(motion_threshold as int, motion_threshold as int) as i64),
                    last_pos: bodies@[body as int].position.tr,
                    accept_zero: true,
                }),
    {
        let entry = CCDBody::new(bodies, body, motion_threshold);
        match self.find_idx(body) {
            Some(i) => {
                self.objects.set(i, entry);
                proof {
                    assert(self.objects@[i as int] == entry);
                }
            },
            None => {
                self.objects.push(entry);
                proof {
                    assert(self.objects@[old(self).objects@.len() as int] == entry);
                }
            },
        }
    }

    /// Removes continuous collision detection from the given rigid body.
    pub fn remove_ccd_from(&mut self, body: usize)
        requires
            old(self).wf(),
        ensures
            final(self).wf(),
            forall|i: int|
                0 <= i < final(self).objects@.len() ==> (#[trigger] final(self).objects@[i]).body
                    != body && old(self).objects@.contains(final(self).objects@[i]),
    {
        match self.find_idx(body) {
            Some(i) => {
                let ghost s0 = self.objects@;
                let _ = self.objects.remove(i);
                proof {
                    assert forall|p: int|
                        0 <= p < self.objects@.len() implies (#[trigger] self.objects@[p]).body
                        != body && s0.contains(self.objects@[p]) by {
                        let p0: int = if p < i as int {
                            p
                        } else {
                            p + 1
                        };
                        assert(self.objects@[p] == s0[p0]);
                    }
                    assert forall|p: int, q: int|
                        0 <= p < q < self.objects@.len() implies (
                    #[trigger] self.objects@[p]).body != (#[trigger] self.objects@[q]).body by {
                        let p0: int = if p < i as int {
                            p
                        } else {
                            p + 1
                        };
                        let q0: int = if q < i as int {
                            q
                        } else {
                            q + 1
                        };
                        assert(self.objects@[p] == s0[p0]);
                        assert(self.objects@[q] == s0[q0]);
                    }
                }
            },
            None => {},
        }
    }

    /// Update the times of impact and apply motion clamping when needed.
    ///
    /// `tois` holds, for each registered body in order, the candidate
    /// impact times that the caller's geometry queries produced for it
    /// (empty when the body did not move beyond its threshold). Returns
    /// whether any body moved far enough that the broad phase must be
    /// refreshed.
    pub fn update(&mut self, bodies: &mut Vec<RigidBody>, tois: &Vec<Vec<Fx>>) -> (refresh: bool)
        requires
            old(self).wf(),
            old(self).handles_ok(old(bodies)@.len() as int),
            tois@.len() == old(self).objects@.len(),
        ensures
            final(self).wf(),
            final(self).objects@.len() == old(self).objects@.len(),
            final(bodies)@.len() == old(bodies)@.len(),
            final(self).handles_ok(final(bodies)@.len() as int),
            // a body nobody registered is untouched
            forall|h: int|
                0 <= h < old(bodies)@.len() && (forall|k: int|
                    0 <= k < old(self).objects@.len() ==> (#[trigger] old(
                        self,
                    ).objects@[k]).body as int != h) ==> final(bodies)@[h] == old(bodies)@[h],
            // each registered body is examined against its own record
            forall|k: int|
                0 <= k < old(self).objects@.len() ==> spec_ccd_step(
                    #[trigger] old(self).objects@[k],
                    old(bodies)@[old(self).objects@[k].body as int],
                    tois@[k]@,
                    final(self).objects@[k],
                    final(bodies)@[old(self).objects@[k].body as int],
                ),
            // after the pass every record agrees with its body's position
            forall|k: int|
                0 <= k < final(self).objects@.len() ==> (#[trigger] final(self).objects@[k]).last_pos == final(bodies)@[final(self).objects@[k].body as int].position.tr,
            refresh == exists|k: int|
                0 <= k < old(self).objects@.len() && sv2_sqnorm(
                    sv2_sub(
                        old(bodies)@[(#[trigger] old(self).objects@[k]).body as int].position.tr@,
                        old(self).objects@[k].last_pos@,
                    ),
                ) > old(self).objects@[k].sqthreshold as int,
    {
        let mut refresh = false;
        let n = self.objects.len();
        let ghost objects0 = self.objects@;
        let ghost bodies0 = bodies@;
        let mut k: usize = 0;
        while k < n
            invariant
                self.objects@.len() == n,
                n == objects0.len(),
                bodies@.len() == bodies0.len(),
                tois@.len() == n,
                k <= n,
                forall|i: int, j: int|
                    0 <= i < j < n ==> (#[trigger] objects0[i]).body != (
                    #[trigger] objects0[j]).body,
                forall|i: int| 0 <= i < n ==> (#[trigger] objects0[i]).body < bodies0.len(),
                forall|j: int| k <= j < n ==> #[trigger] self.objects@[j] == objects0[j],
                forall|j: int| 0 <= j < n ==> (#[trigger] self.objects@[j]).body == objects0[
                    j
                ].body,
                forall|h: int|
                    0 <= h < bodies0.len() && (forall|j: int|
                        0 <= j < k ==> (#[trigger] objects0[j]).body as int != h) ==> bodies@[h]
                        == bodies0[h],
                forall|j: int|
                    0 <= j < k ==> spec_ccd_step(
                        #[trigger] objects0[j],
                        bodies0[objects0[j].body as int],
                        tois@[j]@,
                        self.objects@[j],
                        bodies@[objects0[j].body as int],
                    ),
                forall|j: int|
                    0 <= j < k ==> (#[trigger] self.objects@[j]).last_pos == bodies@[objects0[
                        j
                    ].body as int].position.tr,
                refresh == exists|j: int|
                    0 <= j < k && sv2_sqnorm(
                        sv2_sub(
                            bodies0[(#[trigger] objects0[j]).body as int].position.tr@,
                            objects0[j].last_pos@,
                        ),
                    ) > objects0[j].sqthreshold as int,
            decreases n - k,
        {
            let o = self.objects[k];
            let h = o.body;
            proof {
                assert(objects0[k as int].body == h);
                assert forall|j: int| 0 <= j < k implies (#[trigger] objects0[j]).body as int
                    != h as int by {
                    assert(objects0[j].body != objects0[k as int].body);
                }
                assert(bodies@[h as int] == bodies0[h as int]);
            }
            let movement = v2_sub(&bodies[h].position.tr, &o.last_pos);
            let exceeded = v2_sqnorm(&movement) > o.sqthreshold;
            if exceeded {
                let folded = min_toi_fold(&tois[k], o.accept_zero);
                if folded.0 {
                    let delta = v2_scale(&v2_neg(&movement), fsub(FX_ONE, folded.1));
                    let mut b = bodies[h];
                    b.append_translation(&delta);
                    bodies.set(h, b);
                    let mut o2 = o;
                    o2.accept_zero = false;
                    o2.last_pos = b.position.tr;
                    self.objects.set(k, o2);
                } else {
                    let mut o2 = o;
                    o2.accept_zero = true;
                    o2.last_pos = bodies[h].position.tr;
                    self.objects.set(k, o2);
                }
                refresh = true;
            } else {
                let mut o2 = o;
                o2.last_pos = bodies[h].position.tr;
                self.objects.set(k, o2);
            }
            proof {
                assert(spec_ccd_step(
                    objects0[k as int],
                    bodies0[h as int],
                    tois@[k as int]@,
                    self.objects@[k as int],
                    bodies@[h as int],
                ));
            }
            k += 1;
        }
        refresh
    }
}

/// How one update step treats one registered body: `o` and `b` are the
/// record and the body before, `o2` and `b2` after, and `tois` the
/// candidate impact times supplied for it.
pub open spec fn spec_ccd_step(
    o: CCDBody,
    b: RigidBody,
    tois: Seq<Fx>,
    o2: CCDBody,
    b2: RigidBody,
) -> bool {
    let movement = sv2_sub(b.position.tr@, o.last_pos@);
    if sv2_sqnorm(movement) > o.sqthreshold as int {
        let folded = spec_min_toi(tois, o.accept_zero, tois.len() as int);
        if folded.0 {
            &&& b2 == (RigidBody { position: b2.position, ..b })
            &&& b2.position@ == spec_rewound(b.position@, movement, folded.1)
            &&& o2 == (CCDBody { accept_zero: false, last_pos: b2.position.tr, ..o })
        } else {
            &&& b2 == b
            &&& o2 == (CCDBody { accept_zero: true, last_pos: b.position.tr, ..o })
        }
    } else {
        &&& b2 == b
        &&& o2 == (CCDBody { last_pos: b.position.tr, ..o })
    }
}

}
