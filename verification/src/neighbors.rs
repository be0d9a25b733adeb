//! Sorting the agents near one agent into the three bands of the flocking
//! rules.
//!
//! A neighbour counts only if it is seen: inside the agent's field of view.
//! A seen neighbour belongs to the nearest band whose radius it is inside:
//! separation before alignment before cohesion. No neighbour is in two bands.

use vstd::prelude::*;
use crate::arith::product_at_least;
use crate::boid::{Boid, Neighbor};
use crate::settings::{BoidSettings, FieldOfView, Species, COS_SCALE};
use crate::vector::{MathVector, Vector};
use crate::vector::{lemma_norm_squared, lemma_product_bound, lemma_square_nonnegative};

verus! {

/// The three distance bands, nearest first.
#[derive(Clone, Copy, Debug, PartialEq, Eq, Structural)]
pub enum Band {
    Separation,
    Alignment,
    Cohesion,
}

/// Whether the angle between a heading `v` and an offset `d` is at most the
/// angle whose cosine, in units of `1 / COS_SCALE`, is `cos`. This is
/// `v . d * COS_SCALE >= cos * |v| * |d|`, stated over squares so that no
/// root is taken. A zero heading or a zero offset is inside every cone.
pub open spec fn in_cone(v: MathVector, d: MathVector, cos: int) -> bool {
    let dot = v.dot(d);
    let left = (dot * dot) * (COS_SCALE * COS_SCALE);
    let right = (v.norm_squared() * d.norm_squared()) * (cos * cos);
    if cos >= 0 {
        dot >= 0 && left >= right
    } else {
        dot >= 0 || right >= left
    }
}

/// Whether an agent heading along `v` sees what lies at offset `d`.
pub open spec fn visible(v: MathVector, d: MathVector, fov: FieldOfView) -> bool {
    fov.is_full() || in_cone(v, d, fov.cos_half_angle as int)
}

/// Whether a squared distance is inside a radius. Nothing is inside a radius
/// that is not positive.
pub open spec fn within_range(distance_squared: int, range: int) -> bool {
    range > 0 && distance_squared < range * range
}

/// The band of a neighbour at the given squared distance: the nearest band
/// that it is inside.
pub open spec fn band_at(distance_squared: int, settings: BoidSettings) -> Option<Band> {
    if within_range(distance_squared, settings.separation_range as int) {
        Some(Band::Separation)
    } else if within_range(distance_squared, settings.alignment_range as int) {
        Some(Band::Alignment)
    } else if within_range(distance_squared, settings.cohesion_range as int) {
        Some(Band::Cohesion)
    } else {
        None
    }
}

/// The band in which an agent at `position`, heading along `velocity`, has
/// what lies at `other`; `None` if it does not see it or it is too far.
pub open spec fn band_of(
    position: Vector,
    velocity: Vector,
    other: Vector,
    settings: BoidSettings,
) -> Option<Band> {
    let offset = other@.minus(position@);
    if visible(velocity@, offset, settings.field_of_view) {
        band_at(offset.norm_squared(), settings)
    } else {
        None
    }
}

/// The test that picks, among candidates, the neighbours of `me` in `band`:
/// any agent but `me` itself that `me` has in that band.
pub open spec fn in_band(me: Boid, settings: BoidSettings, band: Band) -> spec_fn(Neighbor) -> bool {
    |n: Neighbor| n.id != me.id && band_of(me.position, me.velocity, n.position, settings) == Some(band)
}

/// The neighbours of one agent, by band, each in the order of the candidates.
#[derive(Clone, Debug)]
pub struct NeighborSets {
    pub separation: Vec<Neighbor>,
    pub alignment: Vec<Neighbor>,
    pub cohesion: Vec<Neighbor>,
}

/// Decides whether an agent heading along `velocity` sees what lies at
/// `offset` from it.
pub fn is_in_field_of_view(velocity: Vector, offset: Vector, fov: FieldOfView) -> (seen: bool)
    ensures
        seen == visible(velocity@, offset@, fov),
{
    if fov.cos_half_angle <= -COS_SCALE {
        return true;
    }
    let dot: i128 = velocity.dot(offset);
    let magnitude: u128 = if dot >= 0 {
        dot as u128
    } else {
        (-dot) as u128
    };
    let v2: u128 = velocity.length_squared();
    let d2: u128 = offset.length_squared();
    proof {
        lemma_product_bound(
            magnitude as int,
            magnitude as int,
            0xC000_0000_0000_0000,
            0xC000_0000_0000_0000,
        );
        lemma_product_bound(v2 as int, d2 as int, 0xC000_0000_0000_0000, 0xC000_0000_0000_0000);
        lemma_product_bound(
            fov.cos_half_angle as int,
            fov.cos_half_angle as int,
            0x8000_0000,
            0x8000_0000,
        );
        lemma_square_nonnegative(fov.cos_half_angle as int);
        lemma_norm_squared(velocity@);
        lemma_norm_squared(offset@);
        assert(magnitude * magnitude == dot * dot) by (nonlinear_arith)
            requires
                magnitude == dot || magnitude == -dot,
        ;
        assert(v2 * d2 >= 0) by (nonlinear_arith)
            requires
                v2 >= 0,
                d2 >= 0,
        ;
    }
    let dot_squared: u128 = magnitude * magnitude;
    let norms: u128 = v2 * d2;
    let cos: i64 = fov.cos_half_angle as i64;
    let cos_squared: u64 = (cos * cos) as u64;
    let scale: u64 = COS_SCALE as u64;
    let scale_squared: u64 = scale * scale;
    if fov.cos_half_angle >= 0 {
        dot >= 0 && product_at_least(dot_squared, scale_squared, norms, cos_squared)
    } else {
        dot >= 0 || product_at_least(norms, cos_squared, dot_squared, scale_squared)
    }
}

/// Decides whether a squared distance is inside a radius.
fn is_within_range(distance_squared: u128, range: i32) -> (inside: bool)
    ensures
        inside == within_range(distance_squared as int, range as int),
{
    if range <= 0 {
        return false;
    }
    let r: u128 = range as u128;
    assert(r * r <= 0x8000_0000 * 0x8000_0000) by (nonlinear_arith)
        requires
            0 <= r <= 0x8000_0000,
    ;
    distance_squared < r * r
}

/// Finds the band of a neighbour at the given squared distance.
pub fn band_by_distance(distance_squared: u128, settings: &BoidSettings) -> (band: Option<Band>)
    ensures
        band == band_at(distance_squared as int, *settings),
{
    if is_within_range(distance_squared, settings.separation_range) {
        Some(Band::Separation)
    } else if is_within_range(distance_squared, settings.alignment_range) {
        Some(Band::Alignment)
    } else if is_within_range(distance_squared, settings.cohesion_range) {
        Some(Band::Cohesion)
    } else {
        None
    }
}

/// An offset whose squared length is inside a radius has components inside
/// that radius.
proof fn lemma_offset_fits(c: int, n: int, range: int)
    requires
        c * c <= n,
        n < range * range,
        range > 0,
    ensures
        -range < c < range,
{
    assert(-range < c < range) by (nonlinear_arith)
        requires
            c * c < range * range,
            range > 0,
    ;
}

/// Finds the band in which an agent at `position`, heading along `velocity`,
/// has what lies at `other`.
pub fn classify(position: Vector, velocity: Vector, other: Vector, settings: &BoidSettings) -> (band:
    Option<Band>)
    ensures
        band == band_of(position, velocity, other, *settings),
{
    let distance_squared: u128 = other.distance_squared(position);
    let by_distance = band_by_distance(distance_squared, settings);
    if by_distance.is_none() {
        return None;
    }
    let dx: i64 = other.x as i64 - position.x as i64;
    let dy: i64 = other.y as i64 - position.y as i64;
    let dz: i64 = other.z as i64 - position.z as i64;
    proof {
        let offset = other@.minus(position@);
        lemma_norm_squared(offset);
        let range = if within_range(distance_squared as int, settings.separation_range as int) {
            settings.separation_range as int
        } else if within_range(distance_squared as int, settings.alignment_range as int) {
            settings.alignment_range as int
        } else {
            settings.cohesion_range as int
        };
        lemma_offset_fits(dx as int, distance_squared as int, range);
        lemma_offset_fits(dy as int, distance_squared as int, range);
        lemma_offset_fits(dz as int, distance_squared as int, range);
    }
    let offset = Vector { x: dx as i32, y: dy as i32, z: dz as i32 };
    assert(offset@ == other@.minus(position@));
    if is_in_field_of_view(velocity, offset, settings.field_of_view) {
        by_distance
    } else {
        None
    }
}

/// Sorts the candidates into the three bands of `me`. `me` itself, if among
/// the candidates, is left out by its identity, not by its distance: another
/// agent at the very same place is a neighbour.
pub fn classify_neighbors(me: &Boid, candidates: &Vec<Neighbor>, settings: &BoidSettings) -> (sets:
    NeighborSets)
    ensures
        sets.separation@ == candidates@.filter(in_band(*me, *settings, Band::Separation)),
        sets.alignment@ == candidates@.filter(in_band(*me, *settings, Band::Alignment)),
        sets.cohesion@ == candidates@.filter(in_band(*me, *settings, Band::Cohesion)),
{
    let mut separation: Vec<Neighbor> = Vec::new();
    let mut alignment: Vec<Neighbor> = Vec::new();
    let mut cohesion: Vec<Neighbor> = Vec::new();
    let mut i: usize = 0;
    proof {
        reveal(Seq::filter);
        assert(candidates@.take(0) =~= Seq::<Neighbor>::empty());
    }
    while i < candidates.len()
        invariant
            i <= candidates.len(),
            separation@ == candidates@.take(i as int).filter(
                in_band(*me, *settings, Band::Separation),
            ),
            alignment@ == candidates@.take(i as int).filter(in_band(*me, *settings, Band::Alignment)),
            cohesion@ == candidates@.take(i as int).filter(in_band(*me, *settings, Band::Cohesion)),
        decreases candidates.len() - i,
    {
        let candidate = candidates[i];
        proof {
            reveal(Seq::filter);
            assert(candidates@.take(i + 1).drop_last() =~= candidates@.take(i as int));
            assert(candidates@.take(i + 1).last() == candidate);
        }
        if candidate.id != me.id {
            match classify(me.position, me.velocity, candidate.position, settings) {
                Some(Band::Separation) => {
                    separation.push(candidate);
                },
                Some(Band::Alignment) => {
                    alignment.push(candidate);
                },
                Some(Band::Cohesion) => {
                    cohesion.push(candidate);
                },
                None => {},
            }
        }
        i += 1;
    }
    proof {
        assert(candidates@.take(i as int) =~= candidates@);
    }
    NeighborSets { separation, alignment, cohesion }
}

/// A candidate for the neighbourhood of a fish, with its species.
#[derive(Clone, Copy, Debug, PartialEq, Eq, Structural)]
pub struct Fish {
    pub neighbor: Neighbor,
    pub species: Species,
}

/// The test that picks the fish of one species, and takes each as a
/// neighbour.
pub open spec fn of_species(species: Species) -> spec_fn(Fish) -> Option<Neighbor> {
    |fish: Fish|
        if fish.species == species {
            Some(fish.neighbor)
        } else {
            None
        }
}

/// Picks the candidates of the given species, in their order: fish flock
/// with their own species only.
pub fn same_species(species: Species, candidates: &Vec<Fish>) -> (kin: Vec<Neighbor>)
    ensures
        kin@ == candidates@.filter_map(of_species(species)),
{
    let mut kin: Vec<Neighbor> = Vec::new();
    let mut i: usize = 0;
    proof {
        assert(candidates@.take(0) =~= Seq::<Fish>::empty());
    }
    while i < candidates.len()
        invariant
            i <= candidates.len(),
            kin@ == candidates@.take(i as int).filter_map(of_species(species)),
        decreases candidates.len() - i,
    {
        let fish = candidates[i];
        let ghost before = kin@;
        proof {
            assert(candidates@.take(i + 1).drop_last() =~= candidates@.take(i as int));
            assert(candidates@.take(i + 1).last() == fish);
        }
        if fish.species == species {
            kin.push(fish.neighbor);
            proof {
                assert(kin@ =~= before + seq![fish.neighbor]);
            }
        }
        i += 1;
    }
    proof {
        assert(candidates@.take(i as int) =~= candidates@);
    }
    kin
}

/// No neighbour is in two bands: what one band's list holds, the lists of
/// the other bands do not.
pub proof fn lemma_bands_exclusive(
    me: Boid,
    candidates: Seq<Neighbor>,
    settings: BoidSettings,
    first: Band,
    second: Band,
    n: Neighbor,
)
    requires
        first != second,
        candidates.filter(in_band(me, settings, first)).contains(n),
    ensures
        !candidates.filter(in_band(me, settings, second)).contains(n),
{
    let one = candidates.filter(in_band(me, settings, first));
    let i = choose|i: int| 0 <= i < one.len() && one[i] == n;
    candidates.lemma_filter_pred(in_band(me, settings, first), i);
    let other = candidates.filter(in_band(me, settings, second));
    if other.contains(n) {
        let j = choose|j: int| 0 <= j < other.len() && other[j] == n;
        candidates.lemma_filter_pred(in_band(me, settings, second), j);
    }
}

/// For an offset `d` and a heading `v` on one line, `a * d == k * v` with
/// `a > 0`: the scalar product has the sign of `k`, and its square is the
/// product of the squared lengths.
proof fn lemma_parallel(v: MathVector, d: MathVector, a: int, k: int)
    requires
        a > 0,
        d.scaled(a) == v.scaled(k),
    ensures
        v.dot(d) * a == k * v.norm_squared(),
        (v.dot(d) * v.dot(d)) == v.norm_squared() * d.norm_squared(),
{
    let dot = v.dot(d);
    let vv = v.norm_squared();
    let dd = d.norm_squared();
    assert(d.scaled(a).x == v.scaled(k).x);
    assert(d.scaled(a).y == v.scaled(k).y);
    assert(d.scaled(a).z == v.scaled(k).z);
    lemma_parallel_component(v.x, d.x, a, k);
    lemma_parallel_component(v.y, d.y, a, k);
    lemma_parallel_component(v.z, d.z, a, k);
    let (px, py, pz) = (v.x * d.x, v.y * d.y, v.z * d.z);
    let (sx, sy, sz) = (v.x * v.x, v.y * v.y, v.z * v.z);
    let (tx, ty, tz) = (d.x * d.x, d.y * d.y, d.z * d.z);
    assert((px + py + pz) * a == px * a + py * a + pz * a) by (nonlinear_arith);
    assert(k * (sx + sy + sz) == k * sx + k * sy + k * sz) by (nonlinear_arith);
    assert((tx + ty + tz) * (a * a) == tx * (a * a) + ty * (a * a) + tz * (a * a))
        by (nonlinear_arith);
    assert((k * k) * (sx + sy + sz) == (k * k) * sx + (k * k) * sy + (k * k) * sz)
        by (nonlinear_arith);
    assert(dot * a == k * vv);
    assert(dd * (a * a) == (k * k) * vv);
    assert((dot * dot) * (a * a) == (vv * dd) * (a * a)) by (nonlinear_arith)
        requires
            dot * a == k * vv,
            dd * (a * a) == (k * k) * vv,
    ;
    assert(dot * dot == vv * dd) by (nonlinear_arith)
        requires
            (dot * dot) * (a * a) == (vv * dd) * (a * a),
            a > 0,
    ;
}

/// One component of [`lemma_parallel`].
proof fn lemma_parallel_component(vc: int, dc: int, a: int, k: int)
    requires
        dc * a == vc * k,
    ensures
        (vc * dc) * a == k * (vc * vc),
        (dc * dc) * (a * a) == (k * k) * (vc * vc),
{
    assert((vc * dc) * a == vc * (dc * a)) by (nonlinear_arith);
    assert(vc * (vc * k) == k * (vc * vc)) by (nonlinear_arith);
    assert((dc * dc) * (a * a) == (dc * a) * (dc * a)) by (nonlinear_arith);
    assert((vc * k) * (vc * k) == (k * k) * (vc * vc)) by (nonlinear_arith);
}

/// What lies straight ahead is seen, whatever the field of view: an offset
/// that is a positive multiple of the heading is inside every cone.
pub proof fn lemma_ahead_is_seen(v: MathVector, d: MathVector, fov: FieldOfView, a: int, b: int)
    requires
        a > 0,
        b > 0,
        d.scaled(a) == v.scaled(b),
        fov.cos_half_angle <= COS_SCALE,
    ensures
        visible(v, d, fov),
{
    lemma_parallel(v, d, a, b);
    lemma_norm_squared(v);
    lemma_norm_squared(d);
    let dot = v.dot(d);
    let n = v.norm_squared() * d.norm_squared();
    let cos = fov.cos_half_angle as int;
    assert(dot >= 0) by (nonlinear_arith)
        requires
            dot * a == b * v.norm_squared(),
            a > 0,
            b > 0,
            v.norm_squared() >= 0,
    ;
    if !fov.is_full() {
        assert(n * (COS_SCALE * COS_SCALE) >= n * (cos * cos)) by (nonlinear_arith)
            requires
                n >= 0,
                -COS_SCALE <= cos <= COS_SCALE,
        ;
    }
}

/// What lies straight behind is not seen unless the field of view is the
/// full circle: an offset that is a negative multiple of the heading is
/// outside every narrower cone.
pub proof fn lemma_behind_is_unseen(v: MathVector, d: MathVector, fov: FieldOfView, a: int, b: int)
    requires
        a > 0,
        b > 0,
        d.scaled(a) == v.scaled(-b),
        !v.is_zero(),
        !fov.is_full(),
    ensures
        !visible(v, d, fov),
{
    lemma_parallel(v, d, a, -b);
    lemma_norm_squared(v);
    lemma_norm_squared(d);
    let dot = v.dot(d);
    let n = v.norm_squared() * d.norm_squared();
    let cos = fov.cos_half_angle as int;
    assert(dot < 0) by (nonlinear_arith)
        requires
            dot * a == (-b) * v.norm_squared(),
            a > 0,
            b > 0,
            v.norm_squared() > 0,
    ;
    if cos < 0 {
        assert(n > 0) by (nonlinear_arith)
            requires
                n == dot * dot,
                dot < 0,
        ;
        assert(n * (COS_SCALE * COS_SCALE) > n * (cos * cos)) by (nonlinear_arith)
            requires
                n > 0,
                -COS_SCALE < cos < 0,
        ;
    }
}

} // verus!
