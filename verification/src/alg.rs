//! Planar linear algebra over saturating fixed-point scalars: vectors,
//! rotors (rotations held as cosine/sine pairs, so no trigonometry is
//! needed), and rigid transforms.
//!
//! Views are pairs of mathematical integers; every executable operation is
//! specified exactly by a spec function over views.

use vstd::prelude::*;
use crate::fx::{Fx, FX_ONE, fadd, fsub, fneg, fmul, sfadd, sfsub, sfneg, sfmul};

verus! {

/// A planar vector.
#[derive(Clone, Copy, PartialEq, Eq, Structural, Debug)]
pub struct V2 {
    pub x: Fx,
    pub y: Fx,
}

/// A planar rotation, held as the image of the first basis vector:
/// `c` the cosine-like and `s` the sine-like component.
#[derive(Clone, Copy, PartialEq, Eq, Structural, Debug)]
pub struct Rot2 {
    pub c: Fx,
    pub s: Fx,
}

/// A rigid transform: a rotation followed by a translation.
#[derive(Clone, Copy, PartialEq, Eq, Structural, Debug)]
pub struct Iso2 {
    pub rot: Rot2,
    pub tr: V2,
}

impl View for V2 {
    type V = (int, int);

    open spec fn view(&self) -> (int, int) {
        (self.x as int, self.y as int)
    }
}

impl View for Rot2 {
    type V = (int, int);

    open spec fn view(&self) -> (int, int) {
        (self.c as int, self.s as int)
    }
}

impl View for Iso2 {
    type V = ((int, int), (int, int));

    open spec fn view(&self) -> ((int, int), (int, int)) {
        (self.rot@, self.tr@)
    }
}

pub open spec fn sv2_add(a: (int, int), b: (int, int)) -> (int, int) {
    (sfadd(a.0, b.0), sfadd(a.1, b.1))
}

pub open spec fn sv2_sub(a: (int, int), b: (int, int)) -> (int, int) {
    (sfsub(a.0, b.0), sfsub(a.1, b.1))
}

pub open spec fn sv2_neg(a: (int, int)) -> (int, int) {
    (sfneg(a.0), sfneg(a.1))
}

pub open spec fn sv2_scale(a: (int, int), k: int) -> (int, int) {
    (sfmul(a.0, k), sfmul(a.1, k))
}

pub open spec fn sv2_dot(a: (int, int), b: (int, int)) -> int {
    sfadd(sfmul(a.0, b.0), sfmul(a.1, b.1))
}

pub open spec fn sv2_cross(a: (int, int), b: (int, int)) -> int {
    sfsub(sfmul(a.0, b.1), sfmul(a.1, b.0))
}

pub open spec fn sv2_sqnorm(a: (int, int)) -> int {
    sv2_dot(a, a)
}

pub open spec fn sv2_perp(a: (int, int)) -> (int, int) {
    (sfneg(a.1), a.0)
}

pub open spec fn srot_apply(r: (int, int), v: (int, int)) -> (int, int) {
    (sfsub(sfmul(r.0, v.0), sfmul(r.1, v.1)), sfadd(sfmul(r.1, v.0), sfmul(r.0, v.1)))
}

pub open spec fn srot_compose(a: (int, int), b: (int, int)) -> (int, int) {
    (sfsub(sfmul(a.0, b.0), sfmul(a.1, b.1)), sfadd(sfmul(a.1, b.0), sfmul(a.0, b.1)))
}

pub open spec fn srot_inv(r: (int, int)) -> (int, int) {
    (r.0, sfneg(r.1))
}

pub open spec fn siso_apply(m: ((int, int), (int, int)), p: (int, int)) -> (int, int) {
    sv2_add(srot_apply(m.0, p), m.1)
}

pub open spec fn siso_compose(
    a: ((int, int), (int, int)),
    b: ((int, int), (int, int)),
) -> ((int, int), (int, int)) {
    (srot_compose(a.0, b.0), sv2_add(srot_apply(a.0, b.1), a.1))
}

pub open spec fn siso_append_translation(
    m: ((int, int), (int, int)),
    t: (int, int),
) -> ((int, int), (int, int)) {
    (m.0, sv2_add(m.1, t))
}

pub open spec fn siso_append_rotation_wrt_point(
    m: ((int, int), (int, int)),
    r: (int, int),
    p: (int, int),
) -> ((int, int), (int, int)) {
    (srot_compose(r, m.0), sv2_add(srot_apply(r, sv2_sub(m.1, p)), p))
}

impl V2 {
    /// The zero vector.
    pub fn zero() -> (r: V2)
        ensures
            r@ == (0int, 0int),
    {
        V2 { x: 0, y: 0 }
    }
}

pub fn v2_add(a: &V2, b: &V2) -> (r: V2)
    ensures
        r@ == sv2_add(a@, b@),
{
    V2 { x: fadd(a.x, b.x), y: fadd(a.y, b.y) }
}

pub fn v2_sub(a: &V2, b: &V2) -> (r: V2)
    ensures
        r@ == sv2_sub(a@, b@),
{
    V2 { x: fsub(a.x, b.x), y: fsub(a.y, b.y) }
}

pub fn v2_neg(a: &V2) -> (r: V2)
    ensures
        r@ == sv2_neg(a@),
{
    V2 { x: fneg(a.x), y: fneg(a.y) }
}

pub fn v2_scale(a: &V2, k: Fx) -> (r: V2)
    ensures
        r@ == sv2_scale(a@, k as int),
{
    V2 { x: fmul(a.x, k), y: fmul(a.y, k) }
}

pub fn v2_dot(a: &V2, b: &V2) -> (r: Fx)
    ensures
        r as int == sv2_dot(a@, b@),
{
    fadd(fmul(a.x, b.x), fmul(a.y, b.y))
}

pub fn v2_cross(a: &V2, b: &V2) -> (r: Fx)
    ensures
        r as int == sv2_cross(a@, b@),
{
    fsub(fmul(a.x, b.y), fmul(a.y, b.x))
}

pub fn v2_sqnorm(a: &V2) -> (r: Fx)
    ensures
        r as int == sv2_sqnorm(a@),
{
    v2_dot(a, a)
}

pub fn v2_perp(a: &V2) -> (r: V2)
    ensures
        r@ == sv2_perp(a@),
{
    V2 { x: fneg(a.y), y: a.x }
}

impl Rot2 {
    /// The identity rotation.
    pub fn identity() -> (r: Rot2)
        ensures
            r@ == (FX_ONE as int, 0int),
    {
        Rot2 { c: FX_ONE, s: 0 }
    }

    /// The first-order rotor of a small angle: cosine one, sine the angle.
    /// This is how the positional pass integrates an angular pseudo-velocity
    /// into a transform delta.
    pub fn from_small_angle(angle: Fx) -> (r: Rot2)
        ensures
            r@ == (FX_ONE as int, angle as int),
    {
        Rot2 { c: FX_ONE, s: angle }
    }
}

pub fn rot_apply(r: &Rot2, v: &V2) -> (o: V2)
    ensures
        o@ == srot_apply(r@, v@),
{
    V2 { x: fsub(fmul(r.c, v.x), fmul(r.s, v.y)), y: fadd(fmul(r.s, v.x), fmul(r.c, v.y)) }
}

pub fn rot_compose(a: &Rot2, b: &Rot2) -> (o: Rot2)
    ensures
        o@ == srot_compose(a@, b@),
{
    Rot2 { c: fsub(fmul(a.c, b.c), fmul(a.s, b.s)), s: fadd(fmul(a.s, b.c), fmul(a.c, b.s)) }
}

pub fn rot_inv(r: &Rot2) -> (o: Rot2)
    ensures
        o@ == srot_inv(r@),
{
    Rot2 { c: r.c, s: fneg(r.s) }
}

impl Iso2 {
    /// The identity transform.
    pub fn identity() -> (r: Iso2)
        ensures
            r@ == (((FX_ONE as int, 0int), (0int, 0int))),
    {
        Iso2 { rot: Rot2 { c: FX_ONE, s: 0 }, tr: V2 { x: 0, y: 0 } }
    }
}

pub fn iso_apply(m: &Iso2, p: &V2) -> (r: V2)
    ensures
        r@ == siso_apply(m@, p@),
{
    v2_add(&rot_apply(&m.rot, p), &m.tr)
}

pub fn iso_compose(a: &Iso2, b: &Iso2) -> (r: Iso2)
    ensures
        r@ == siso_compose(a@, b@),
{
    Iso2 { rot: rot_compose(&a.rot, &b.rot), tr: v2_add(&rot_apply(&a.rot, &b.tr), &a.tr) }
}

pub fn iso_append_translation(m: &Iso2, t: &V2) -> (r: Iso2)
    ensures
        r@ == siso_append_translation(m@, t@),
{
    Iso2 { rot: m.rot, tr: v2_add(&m.tr, t) }
}

pub fn iso_append_rotation_wrt_point(m: &Iso2, r: &Rot2, p: &V2) -> (o: Iso2)
    ensures
        o@ == siso_append_rotation_wrt_point(m@, r@, p@),
{
    Iso2 { rot: rot_compose(r, &m.rot), tr: v2_add(&rot_apply(r, &v2_sub(&m.tr, p)), p) }
}

}
