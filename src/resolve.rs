//! What one attempted move does to the store: which obstacles block it,
//! which get pushed and by how much, stated over sequences of entities.

use vstd::prelude::*;
use crate::entity::{Entity, shifted};
use crate::geometry::{Bounds, Overlap, spec_overlaps};
use vstd::arithmetic::div_mod::{
    lemma_div_is_ordered, lemma_div_pos_is_pos, lemma_fundamental_div_mod_converse_div,
};

verus! {

/// The largest distance, on each axis, that one push moves an entity.
pub const MAX_PUSH: u32 = 10;

/// Each corner coordinate lies well inside `i64`; every box made from an
/// `i32` position and a collider does.
pub open spec fn bounded(b: Bounds) -> bool {
    &&& -0x4_0000_0000 <= b.0 <= 0x4_0000_0000
    &&& -0x4_0000_0000 <= b.1 <= 0x4_0000_0000
    &&& -0x4_0000_0000 <= b.2 <= 0x4_0000_0000
    &&& -0x4_0000_0000 <= b.3 <= 0x4_0000_0000
}

/// How far box `cand` reaches into box `b` from each side: its right edge
/// past `b`'s left edge, `b`'s right edge past its left edge, its bottom
/// edge past `b`'s top edge, and `b`'s bottom edge past its top edge. All
/// four are positive exactly when the boxes overlap.
pub open spec fn spec_depths(cand: Bounds, b: Bounds) -> Overlap {
    ((cand.2 - b.0) as i64, (b.2 - cand.0) as i64, (cand.3 - b.1) as i64, (b.3 - cand.1) as i64)
}

/// The penetration depths of `cand` into `b`.
pub fn depths(cand: Bounds, b: Bounds) -> (r: Overlap)
    requires
        bounded(cand),
        bounded(b),
    ensures
        r == spec_depths(cand, b),
{
    (cand.2 - b.0, b.2 - cand.0, cand.3 - b.1, b.3 - cand.1)
}

/// Every box that an entity's collider covers is `bounded`.
pub proof fn lemma_entity_bounds_bounded(e: Entity)
    requires
        e.collider is Some,
    ensures
        bounded(e.spec_bounds().unwrap()),
{
}

/// `e` moved to `(x, y)`, all else kept.
pub open spec fn placed(e: Entity, x: i32, y: i32) -> Entity {
    Entity { position_x: x, position_y: y, ..e }
}

/// The size of a push, scaled by `mover_mass + other_mass`: the obstacle's
/// share `overlap * mover / (mover + other)` of the overlap, at most
/// `MAX_PUSH`. The push itself is this over `mover_mass + other_mass`, a
/// fraction that is only cut to whole units where it lands.
pub open spec fn push_amount(overlap: int, mover_mass: int, other_mass: int) -> int {
    let a = overlap * mover_mass;
    let cap = MAX_PUSH * (mover_mass + other_mass);
    if a > cap {
        cap
    } else {
        a
    }
}

/// The push that a mover whose box is `cand` gives an obstacle whose box is
/// `b`, on each axis, scaled by `mover_mass + other_mass`. The four
/// penetration depths are tried in the order left, right, top, bottom; the
/// first smallest one picks the axis and the direction (a mover that comes
/// in from the left pushes to the right, and so on).
pub open spec fn spec_push_vector(cand: Bounds, b: Bounds, mover_mass: u32, other_mass: u32) -> (
    int,
    int,
) {
    let from_left = cand.2 - b.0;
    let from_right = b.2 - cand.0;
    let from_top = cand.3 - b.1;
    let from_bottom = b.3 - cand.1;
    if from_left <= from_right && from_left <= from_top && from_left <= from_bottom {
        (push_amount(from_left, mover_mass as int, other_mass as int), 0)
    } else if from_right <= from_top && from_right <= from_bottom {
        (-push_amount(from_right, mover_mass as int, other_mass as int), 0)
    } else if from_top <= from_bottom {
        (0, push_amount(from_top, mover_mass as int, other_mass as int))
    } else {
        (0, -push_amount(from_bottom, mover_mass as int, other_mass as int))
    }
}

/// `n / d` cut toward zero, for `d > 0`.
pub open spec fn trunc_div(n: int, d: int) -> int {
    if n >= 0 {
        n / d
    } else {
        -((-n) / d)
    }
}

/// `v` held to the range of `i32`.
pub open spec fn saturate(v: int) -> i32 {
    if v > i32::MAX {
        i32::MAX
    } else if v < i32::MIN {
        i32::MIN
    } else {
        v as i32
    }
}

/// Where a coordinate `p` lands after a push of `num / den`: the exact sum,
/// cut toward zero and held to the range of `i32`.
pub open spec fn pushed_coord(p: i32, num: int, den: int) -> i32 {
    saturate(trunc_div(p * den + num, den))
}

proof fn lemma_push_amount_range(overlap: int, mover_mass: int, other_mass: int)
    requires
        overlap > 0,
        mover_mass > 0,
        other_mass >= 0,
    ensures
        0 <= push_amount(overlap, mover_mass, other_mass) <= MAX_PUSH * (mover_mass + other_mass),
{
    assert(overlap * mover_mass >= 0) by (nonlinear_arith)
        requires
            overlap > 0,
            mover_mass > 0,
    ;
}

/// A push never exceeds `MAX_PUSH` on either axis, and moves along one axis
/// only.
pub proof fn lemma_push_vector_bounded(cand: Bounds, b: Bounds, mover_mass: u32, other_mass: u32)
    requires
        spec_overlaps(cand, b),
        mover_mass > 0,
    ensures
        ({
            let v = spec_push_vector(cand, b, mover_mass, other_mass);
            let den = mover_mass + other_mass;
            &&& -(MAX_PUSH * den) <= v.0 <= MAX_PUSH * den
            &&& -(MAX_PUSH * den) <= v.1 <= MAX_PUSH * den
            &&& v.0 == 0 || v.1 == 0
        }),
{
    lemma_push_amount_range(cand.2 - b.0, mover_mass as int, other_mass as int);
    lemma_push_amount_range(b.2 - cand.0, mover_mass as int, other_mass as int);
    lemma_push_amount_range(cand.3 - b.1, mover_mass as int, other_mass as int);
    lemma_push_amount_range(b.3 - cand.1, mover_mass as int, other_mass as int);
}

/// A push of at most `MAX_PUSH` moves a coordinate by at most `MAX_PUSH`,
/// and a push of zero does not move it.
pub proof fn lemma_pushed_coord_range(p: i32, num: int, den: int)
    requires
        den > 0,
        -(MAX_PUSH * den) <= num <= MAX_PUSH * den,
    ensures
        p - MAX_PUSH <= pushed_coord(p, num, den) <= p + MAX_PUSH,
        num == 0 ==> pushed_coord(p, num, den) == p,
{
    let n = p * den + num;
    let lo = p - MAX_PUSH;
    let hi = p + MAX_PUSH;
    assert(lo * den <= n <= hi * den) by (nonlinear_arith)
        requires
            den > 0,
            -(MAX_PUSH * den) <= num <= MAX_PUSH * den,
            n == p * den + num,
            lo == p - MAX_PUSH,
            hi == p + MAX_PUSH,
    ;
    lemma_trunc_div_multiple(lo, den);
    lemma_trunc_div_multiple(hi, den);
    lemma_trunc_div_multiple(p as int, den);
    lemma_trunc_div_ordered(lo * den, n, den);
    lemma_trunc_div_ordered(n, hi * den, den);
}

proof fn lemma_trunc_div_multiple(q: int, d: int)
    requires
        d > 0,
    ensures
        trunc_div(q * d, d) == q,
{
    if q >= 0 {
        assert(q * d >= 0) by (nonlinear_arith)
            requires
                q >= 0,
                d > 0,
        ;
        lemma_fundamental_div_mod_converse_div(q * d, d, q, 0);
    } else {
        assert(q * d < 0 && -(q * d) == (-q) * d) by (nonlinear_arith)
            requires
                q < 0,
                d > 0,
        ;
        lemma_fundamental_div_mod_converse_div((-q) * d, d, -q, 0);
    }
}

proof fn lemma_trunc_div_ordered(x: int, y: int, d: int)
    requires
        x <= y,
        d > 0,
    ensures
        trunc_div(x, d) <= trunc_div(y, d),
{
    if x >= 0 {
        lemma_div_is_ordered(x, y, d);
    } else if y < 0 {
        lemma_div_is_ordered(-y, -x, d);
    } else {
        lemma_div_pos_is_pos(-x, d);
        lemma_div_pos_is_pos(y, d);
    }
}

fn amount(overlap: i64, mover_mass: u32, other_mass: u32) -> (r: i64)
    requires
        0 < overlap <= 0x10_0000_0000,
        mover_mass > 0,
    ensures
        r == push_amount(overlap as int, mover_mass as int, other_mass as int),
{
    let o: u128 = overlap as u128;
    let mm: u128 = mover_mass as u128;
    let cap: u128 = MAX_PUSH as u128 * (mover_mass as u128 + other_mass as u128);
    assert(o * mm <= 0x10_0000_0000 * 0x1_0000_0000) by (nonlinear_arith)
        requires
            o <= 0x10_0000_0000,
            mm <= 0x1_0000_0000,
    ;
    let a: u128 = o * mm;
    if a > cap {
        cap as i64
    } else {
        a as i64
    }
}

/// The push that a mover whose box is `cand` gives an overlapping obstacle
/// whose box is `b`, scaled by `mover_mass + other_mass`.
pub fn push_vector(cand: Bounds, b: Bounds, mover_mass: u32, other_mass: u32) -> (r: (i64, i64))
    requires
        bounded(cand),
        bounded(b),
        spec_overlaps(cand, b),
        mover_mass > 0,
    ensures
        r.0 == spec_push_vector(cand, b, mover_mass, other_mass).0,
        r.1 == spec_push_vector(cand, b, mover_mass, other_mass).1,
{
    let from_left = cand.2 - b.0;
    let from_right = b.2 - cand.0;
    let from_top = cand.3 - b.1;
    let from_bottom = b.3 - cand.1;
    if from_left <= from_right && from_left <= from_top && from_left <= from_bottom {
        (amount(from_left, mover_mass, other_mass), 0)
    } else if from_right <= from_top && from_right <= from_bottom {
        (-amount(from_right, mover_mass, other_mass), 0)
    } else if from_top <= from_bottom {
        (0, amount(from_top, mover_mass, other_mass))
    } else {
        (0, -amount(from_bottom, mover_mass, other_mass))
    }
}

/// Where coordinate `p` lands after a push of `num / den`.
pub fn push_coord(p: i32, num: i64, den: i64) -> (r: i32)
    requires
        0 < den <= 0x2_0000_0000,
        -(MAX_PUSH * den) <= num <= MAX_PUSH * den,
    ensures
        r == pushed_coord(p, num as int, den as int),
{
    assert(-0x8000_0000 * 0x2_0000_0000 <= p * den <= 0x8000_0000 * 0x2_0000_0000) by (
    nonlinear_arith)
        requires
            0 < den <= 0x2_0000_0000,
            -0x8000_0000 <= p < 0x8000_0000,
    ;
    let n: i128 = p as i128 * den as i128 + num as i128;
    let d: i128 = den as i128;
    let q: i128 = if n >= 0 {
        n / d
    } else {
        -((-n) / d)
    };
    proof {
        if n >= 0 {
            lemma_div_is_ordered(n as int, (0x8000_0000 * 0x2_0000_0000 + MAX_PUSH * 0x2_0000_0000), d as int);
            lemma_div_pos_is_pos(n as int, d as int);
        }
    }
    if q > i32::MAX as i128 {
        i32::MAX
    } else if q < i32::MIN as i128 {
        i32::MIN
    } else {
        q as i32
    }
}

/// Slot `j` holds an entity, other than the mover at slot `m`, that is
/// solid, has a collider, and whose box overlaps `cand`.
pub open spec fn hits(es: Seq<Entity>, m: int, j: int, cand: Bounds) -> bool {
    &&& 0 <= j < es.len()
    &&& j != m
    &&& es[j].solid
    &&& es[j].spec_bounds() is Some
    &&& spec_overlaps(cand, es[j].spec_bounds().unwrap())
}

/// A hit on an unpushable entity: it rejects the whole move.
pub open spec fn blocks(es: Seq<Entity>, m: int, j: int, cand: Bounds) -> bool {
    hits(es, m, j, cand) && !es[j].pushable
}

/// A hit on a pushable entity: it gets pushed out of the way.
pub open spec fn shoves(es: Seq<Entity>, m: int, j: int, cand: Bounds) -> bool {
    hits(es, m, j, cand) && es[j].pushable
}

pub open spec fn blocked(es: Seq<Entity>, m: int, cand: Bounds) -> bool {
    exists|j: int| blocks(es, m, j, cand)
}

/// A mover that takes part in no collision test: it has no collider, or
/// it is not solid.
pub open spec fn passes_through(e: Entity) -> bool {
    e.collider is None || !e.solid
}

/// `e` after a displacement of `(dx, dy)`.
pub open spec fn displaced(e: Entity, dx: i32, dy: i32) -> Entity {
    placed(e, shifted(e.position_x, dx), shifted(e.position_y, dy))
}

/// The box a mover with a collider would cover after `(dx, dy)`.
pub open spec fn candidate(e: Entity, dx: i32, dy: i32) -> Bounds {
    displaced(e, dx, dy).spec_bounds().unwrap()
}

/// Whether the move of the entity at slot `m` by `(dx, dy)` goes ahead.
pub open spec fn accepts(es: Seq<Entity>, m: int, dx: i32, dy: i32) -> bool {
    passes_through(es[m]) || !blocked(es, m, candidate(es[m], dx, dy))
}

/// Slot `u` holds a solid, unpushable entity with a collider whose box
/// overlaps `t`, the box that the entity at slot `k` would take.
pub open spec fn walls(es: Seq<Entity>, k: int, u: int, t: Bounds) -> bool {
    &&& 0 <= u < es.len()
    &&& u != k
    &&& es[u].solid
    &&& !es[u].pushable
    &&& es[u].spec_bounds() is Some
    &&& spec_overlaps(t, es[u].spec_bounds().unwrap())
}

/// Whether a restricted move of slot `k` to `(x, y)` is stopped. Only
/// solid, unpushable entities stop it; an entity without a collider is
/// never stopped.
pub open spec fn stopped(es: Seq<Entity>, k: int, x: i32, y: i32) -> bool {
    es[k].collider is Some && exists|u: int|
        walls(es, k, u, placed(es[k], x, y).spec_bounds().unwrap())
}

/// The store after a restricted move of slot `k` to `(x, y)`: the entity
/// moves unless stopped, and it pushes nothing.
pub open spec fn spec_simple_move(es: Seq<Entity>, k: int, x: i32, y: i32) -> Seq<Entity> {
    if stopped(es, k, x, y) {
        es
    } else {
        es.update(k, placed(es[k], x, y))
    }
}

/// The push that the mover at slot `m`, with box `cand`, gives slot `k`:
/// its two components over the common denominator, the sum of the masses.
pub open spec fn push_of(es: Seq<Entity>, m: int, k: int, cand: Bounds) -> (int, int, int) {
    let v = spec_push_vector(cand, es[k].spec_bounds().unwrap(), es[m].mass, es[k].mass);
    (v.0, v.1, es[m].mass + es[k].mass)
}

/// Where the push of the mover at slot `m` would take slot `k`.
pub open spec fn push_target(es: Seq<Entity>, m: int, k: int, cand: Bounds) -> (i32, i32) {
    let v = push_of(es, m, k, cand);
    (pushed_coord(es[k].position_x, v.0, v.2), pushed_coord(es[k].position_y, v.1, v.2))
}

/// What becomes of slot `k` when the mover pushes it: one restricted move,
/// made on the store as it stood after the mover's own move.
pub open spec fn shoved(post: Seq<Entity>, m: int, k: int, cand: Bounds) -> Entity {
    let t = push_target(post, m, k, cand);
    spec_simple_move(post, k, t.0, t.1)[k]
}

/// The store after every entity that the mover hits and can push has made
/// its restricted move. The restricted moves are only stopped by
/// unpushable entities, which none of them moves, so they do not depend on
/// one another.
pub open spec fn pushed_all(post: Seq<Entity>, m: int, cand: Bounds) -> Seq<Entity> {
    Seq::new(
        post.len(),
        |k: int|
            if shoves(post, m, k, cand) {
                shoved(post, m, k, cand)
            } else {
                post[k]
            },
    )
}

/// The store after slot `m` tries to move by `(dx, dy)`.
pub open spec fn resolved(es: Seq<Entity>, m: int, dx: i32, dy: i32) -> Seq<Entity> {
    if !accepts(es, m, dx, dy) {
        es
    } else {
        let post = es.update(m, displaced(es[m], dx, dy));
        if passes_through(es[m]) {
            post
        } else {
            pushed_all(post, m, candidate(es[m], dx, dy))
        }
    }
}

/// `p` lists, in increasing slot order, every slot that the mover at `m`
/// with box `cand` shoves, each with its push.
pub open spec fn push_list(es: Seq<Entity>, m: int, cand: Bounds, p: Seq<(usize, i64, i64, i64)>) -> bool {
    &&& forall|q: int|
        0 <= q < p.len() ==> shoves(es, m, #[trigger] p[q].0 as int, cand) && (
        p[q].1 as int,
        p[q].2 as int,
        p[q].3 as int,
    ) == push_of(es, m, p[q].0 as int, cand)
    &&& forall|q1: int, q2: int| 0 <= q1 < q2 < p.len() ==> p[q1].0 < p[q2].0
    &&& forall|k: int| #[trigger]
        shoves(es, m, k, cand) ==> exists|q: int| 0 <= q < p.len() && p[q].0 == k
}

/// Every entity meets what the resolver assumes of it.
pub open spec fn all_valid(es: Seq<Entity>) -> bool {
    forall|i: int| 0 <= i < es.len() ==> (#[trigger] es[i]).is_valid()
}

/// A restricted move changes at most the position of the entity it moves,
/// and leaves it either where it was or at the target.
proof fn lemma_simple_move_frame(es: Seq<Entity>, k: int, x: i32, y: i32)
    requires
        0 <= k < es.len(),
    ensures
        spec_simple_move(es, k, x, y).len() == es.len(),
        forall|j: int| 0 <= j < es.len() && j != k ==> #[trigger] spec_simple_move(es, k, x, y)[j] == es[j],
        spec_simple_move(es, k, x, y)[k] == es[k] || spec_simple_move(es, k, x, y)[k] == placed(
            es[k],
            x,
            y,
        ),
{
}

/// What a resolved move leaves of each slot: only positions change; the
/// mover either stays or takes its whole displacement; an entity other
/// than the mover changes only when the mover shoves it, and then by at
/// most `MAX_PUSH` on each axis.
pub proof fn lemma_resolved_frame(es: Seq<Entity>, m: int, dx: i32, dy: i32)
    requires
        0 <= m < es.len(),
        all_valid(es),
    ensures
        resolved(es, m, dx, dy).len() == es.len(),
        forall|k: int|
            0 <= k < es.len() ==> {
                let e = #[trigger] resolved(es, m, dx, dy)[k];
                e == placed(es[k], e.position_x, e.position_y)
            },
        accepts(es, m, dx, dy) ==> resolved(es, m, dx, dy)[m] == displaced(es[m], dx, dy),
        !accepts(es, m, dx, dy) ==> resolved(es, m, dx, dy) == es,
        forall|k: int|
            0 <= k < es.len() && k != m && (passes_through(es[m]) || !shoves(
                es,
                m,
                k,
                candidate(es[m], dx, dy),
            )) ==> #[trigger] resolved(es, m, dx, dy)[k] == es[k],
        forall|k: int|
            0 <= k < es.len() && k != m ==> {
                let e = #[trigger] resolved(es, m, dx, dy)[k];
                &&& -(MAX_PUSH as int) <= e.position_x - es[k].position_x <= MAX_PUSH
                &&& -(MAX_PUSH as int) <= e.position_y - es[k].position_y <= MAX_PUSH
            },
{
    let post = es.update(m, displaced(es[m], dx, dy));
    let cand = candidate(es[m], dx, dy);
    assert forall|k: int|
        0 <= k < es.len() && k != m && !passes_through(es[m]) && accepts(es, m, dx, dy)
            && shoves(post, m, k, cand) implies {
        let e = #[trigger] pushed_all(post, m, cand)[k];
        &&& e == placed(es[k], e.position_x, e.position_y)
        &&& -(MAX_PUSH as int) <= e.position_x - es[k].position_x <= MAX_PUSH
        &&& -(MAX_PUSH as int) <= e.position_y - es[k].position_y <= MAX_PUSH
    } by {
        assert(post[k] == es[k]);
        assert(es[m].is_valid());
        lemma_push_vector_bounded(cand, es[k].spec_bounds().unwrap(), es[m].mass, es[k].mass);
        let v = push_of(post, m, k, cand);
        lemma_pushed_coord_range(es[k].position_x, v.0, v.2);
        lemma_pushed_coord_range(es[k].position_y, v.1, v.2);
        let t = push_target(post, m, k, cand);
        lemma_simple_move_frame(post, k, t.0, t.1);
    }
    assert forall|k: int|
        0 <= k < es.len() && k != m && accepts(es, m, dx, dy) && !passes_through(es[m]) implies #[trigger] shoves(post, m, k, cand)
            == shoves(es, m, k, cand) by {
        assert(post[k] == es[k]);
    }
}

/// A zero displacement of an entity that hits nothing succeeds and leaves
/// the store as it was.
pub proof fn lemma_zero_move(es: Seq<Entity>, m: int)
    requires
        0 <= m < es.len(),
    ensures
        passes_through(es[m]) || (forall|j: int| !hits(es, m, j, candidate(es[m], 0, 0))) ==> accepts(
            es,
            m,
            0,
            0,
        ) && resolved(es, m, 0, 0) == es,
{
    assert(displaced(es[m], 0, 0) == es[m]);
    assert(es.update(m, es[m]) =~= es);
    if !passes_through(es[m]) && (forall|j: int| !hits(es, m, j, candidate(es[m], 0, 0))) {
        assert(pushed_all(es, m, candidate(es[m], 0, 0)) =~= es);
    }
}

} // verus!
