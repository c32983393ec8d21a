use vstd::prelude::*;
use crate::sprite::Sprite;

verus! {

/// A sprite placed in the world, centred on its position.
#[derive(Clone, Debug)]
pub struct SpriteInstance {
    pub sprite: Sprite,
    pub position_x: i32,
    pub position_y: i32,
    pub z_order: i32,
}

/// Instance `a` is drawn before instance `b`: it has a lower `z_order`,
/// or the same one and comes first.
pub open spec fn drawn_before(s: Seq<SpriteInstance>, a: int, b: int) -> bool {
    s[a].z_order < s[b].z_order || (s[a].z_order == s[b].z_order && a < b)
}

/// `i` occurs in `order`.
pub open spec fn listed(order: Seq<usize>, i: int) -> bool {
    exists|a: int| 0 <= a < order.len() && #[trigger] order[a] == i
}

/// `order` lists each index below `n` exactly once, and in drawing order.
pub open spec fn is_draw_order(s: Seq<SpriteInstance>, order: Seq<usize>, n: int) -> bool {
    &&& order.len() == n
    &&& forall|a: int| 0 <= a < order.len() ==> #[trigger] order[a] < n
    &&& forall|a: int, b: int|
        0 <= a < b < order.len() ==> drawn_before(s, #[trigger] order[a] as int, #[trigger] order[b] as int)
    &&& forall|i: int| 0 <= i < n ==> #[trigger] listed(order, i)
}

/// The order in which to draw the instances so that higher layers cover
/// lower ones: by `z_order`, ties in the order given.
pub fn render_order(instances: &Vec<SpriteInstance>) -> (r: Vec<usize>)
    ensures
        is_draw_order(instances@, r@, instances@.len() as int),
{
    let n = instances.len();
    let mut order: Vec<usize> = Vec::new();
    let mut i: usize = 0;
    while i < n
        invariant
            n == instances@.len(),
            i <= n,
            is_draw_order(instances@, order@, i as int),
        decreases n - i,
    {
        let z = instances[i].z_order;
        let mut p: usize = 0;
        while p < order.len() && instances[order[p]].z_order <= z
            invariant
                n == instances@.len(),
                i < n,
                z == instances@[i as int].z_order,
                p <= order@.len(),
                is_draw_order(instances@, order@, i as int),
                forall|a: int| 0 <= a < p ==> instances@[#[trigger] order@[a] as int].z_order <= z,
            decreases order@.len() - p,
        {
            p += 1;
        }
        let ghost before = order@;
        order.insert(p, i);
        proof {
            assert forall|a: int| p < a < before.len() + 1 implies z < instances@[
                #[trigger] order@[a] as int
            ].z_order by {
                assert(order@[a] == before[a - 1]);
                assert(drawn_before(instances@, before[p as int] as int, before[a - 1] as int) || a - 1
                    == p);
            }
            assert forall|a: int, b: int|
                0 <= a < b < order@.len() implies drawn_before(
                instances@,
                #[trigger] order@[a] as int,
                #[trigger] order@[b] as int,
            ) by {
                if a < p && b > p {
                    assert(order@[a] == before[a]);
                    assert(order@[b] == before[b - 1]);
                    assert(drawn_before(instances@, before[a] as int, before[b - 1] as int));
                } else if b < p {
                    assert(order@[a] == before[a]);
                    assert(order@[b] == before[b]);
                } else if a > p {
                    assert(order@[a] == before[a - 1]);
                    assert(order@[b] == before[b - 1]);
                    assert(drawn_before(instances@, before[a - 1] as int, before[b - 1] as int));
                } else if a == p {
                    assert(order@[a] == i);
                    assert(order@[b] == before[b - 1]);
                } else {
                    assert(order@[b] == i);
                    assert(order@[a] == before[a]);
                }
            }
            assert forall|k: int| 0 <= k < i + 1 implies #[trigger] listed(order@, k) by {
                if k < i {
                    assert(listed(before, k));
                    let a0 = choose|a: int| 0 <= a < before.len() && #[trigger] before[a] == k;
                    if a0 < p {
                        assert(order@[a0] == k);
                    } else {
                        assert(order@[a0 + 1] == k);
                    }
                } else {
                    assert(order@[p as int] == k);
                }
            }
        }
        i += 1;
    }
    order
}

} // verus!
