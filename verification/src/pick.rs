//! Nearest-particle selection for the pointer: a linear scan that keeps the
//! first strict minimum, so ties go to the lowest index.

use crate::num::{iabs, lemma_mul_bound};
use crate::vec2::{dist2, Point, Vec2};
use crate::{COORD_GUARD, STATE_LIMIT};
use vstd::prelude::*;

verus! {

/// Find the particle whose centre is nearest to `mouse`, if any lies
/// strictly within `max_dist`. Ties break to the lowest index, because only a
/// strictly smaller squared distance displaces the current best.
pub fn nearest_point(points: &Vec<Point>, mouse: Vec2, max_dist: i64) -> (r: Option<usize>)
    requires
        0 <= max_dist <= COORD_GUARD,
        iabs(mouse@.x) <= STATE_LIMIT,
        iabs(mouse@.y) <= STATE_LIMIT,
        forall|i: int|
            0 <= i < points@.len() ==> iabs(#[trigger] points@[i]@.pos.x) <= STATE_LIMIT && iabs(
                points@[i]@.pos.y,
            ) <= STATE_LIMIT,
    ensures
        match r {
            Option::Some(i) => i < points@.len() && dist2(points@[i as int]@.pos, mouse@)
                < max_dist * max_dist && (forall|j: int|
                0 <= j < i ==> #[trigger] dist2(points@[j]@.pos, mouse@) > dist2(
                    points@[i as int]@.pos,
                    mouse@,
                )) && (forall|j: int|
                i < j < points@.len() ==> #[trigger] dist2(points@[j]@.pos, mouse@) >= dist2(
                    points@[i as int]@.pos,
                    mouse@,
                )),
            Option::None => forall|j: int|
                0 <= j < points@.len() ==> #[trigger] dist2(points@[j]@.pos, mouse@) >= max_dist
                    * max_dist,
        },
{
    let mut best_i: Option<usize> = None;
    proof {
        lemma_mul_bound(max_dist as int, max_dist as int, COORD_GUARD as int, COORD_GUARD as int);
    }
    let mut best_d2: i128 = (max_dist as i128) * (max_dist as i128);
    let len = points.len();
    let mut k: usize = 0;
    while k < len
        invariant
            len == points@.len(),
            0 <= k <= len,
            0 <= max_dist <= COORD_GUARD,
            iabs(mouse@.x) <= STATE_LIMIT,
            iabs(mouse@.y) <= STATE_LIMIT,
            forall|i: int|
                0 <= i < points@.len() ==> iabs(#[trigger] points@[i]@.pos.x) <= STATE_LIMIT
                    && iabs(points@[i]@.pos.y) <= STATE_LIMIT,
            match best_i {
                Option::Some(bi) => bi < k && best_d2 == dist2(points@[bi as int]@.pos, mouse@)
                    && best_d2 < max_dist * max_dist && (forall|j: int|
                    0 <= j < bi ==> #[trigger] dist2(points@[j]@.pos, mouse@) > best_d2) && (
                forall|j: int|
                    bi < j < k ==> #[trigger] dist2(points@[j]@.pos, mouse@) >= best_d2),
                Option::None => best_d2 == max_dist * max_dist && (forall|j: int|
                    0 <= j < k ==> #[trigger] dist2(points@[j]@.pos, mouse@) >= best_d2),
            },
        decreases len - k,
    {
        let p = points[k];
        let ex: i128 = (p.pos.x as i128) - (mouse.x as i128);
        let ey: i128 = (p.pos.y as i128) - (mouse.y as i128);
        proof {
            assert(iabs(points@[k as int]@.pos.x) <= STATE_LIMIT);
            assert(iabs(points@[k as int]@.pos.y) <= STATE_LIMIT);
            lemma_mul_bound(ex as int, ex as int, 2 * STATE_LIMIT as int, 2 * STATE_LIMIT as int);
            lemma_mul_bound(ey as int, ey as int, 2 * STATE_LIMIT as int, 2 * STATE_LIMIT as int);
        }
        let d2v: i128 = ex * ex + ey * ey;
        proof {
            assert(d2v == dist2(points@[k as int]@.pos, mouse@));
        }
        if d2v < best_d2 {
            best_d2 = d2v;
            best_i = Some(k);
        }
        k = k + 1;
    }
    best_i
}

} // verus!
