//! The level curve: reaching level `L` costs `50 * L^3` experience, and the
//! level of an experience total is the highest level whose cost it covers.

use vstd::prelude::*;

verus! {

/// Experience that one unit of the cubic curve is worth.
pub const XP_PER_CUBE: u64 = 50;

/// Experience needed to reach `level`.
pub open spec fn cost(level: nat) -> nat {
    50 * (level * level * level)
}

/// Level of an experience total, as a staircase: one step up at each
/// experience total that exactly pays for the next level.
pub open spec fn level_of(xp: nat) -> nat
    decreases xp,
{
    if xp == 0 {
        0
    } else if cost(level_of((xp - 1) as nat) + 1) <= xp {
        level_of((xp - 1) as nat) + 1
    } else {
        level_of((xp - 1) as nat)
    }
}

/// The cost curve is strictly increasing.
pub proof fn lemma_cost_strictly_increasing(a: nat, b: nat)
    requires
        a < b,
    ensures
        cost(a) < cost(b),
{
    assert(a * a <= b * a) by (nonlinear_arith)
        requires a < b;
    assert(b * a < b * b) by (nonlinear_arith)
        requires a < b;
    assert(a * a * a <= a * a * b) by (nonlinear_arith)
        requires a < b;
    assert(a * a * b < b * b * b) by (nonlinear_arith)
        requires a * a < b * b, 0 < b;
}

/// Non-strict form of `lemma_cost_strictly_increasing`.
proof fn lemma_cost_increasing(a: nat, b: nat)
    requires
        a <= b,
    ensures
        cost(a) <= cost(b),
{
    if a < b {
        lemma_cost_strictly_increasing(a, b);
    }
}

/// `level_of(xp)` is the level whose cost is covered by `xp` while the cost
/// of the next level is not.
pub proof fn lemma_level_of_bounds(xp: nat)
    ensures
        cost(level_of(xp)) <= xp,
        xp < cost(level_of(xp) + 1),
    decreases xp,
{
    if xp == 0 {
        assert(cost(0) == 0);
        assert(cost(1) == 50);
    } else {
        let prev = (xp - 1) as nat;
        lemma_level_of_bounds(prev);
        let l = level_of(prev);
        if cost(l + 1) <= xp {
            lemma_cost_strictly_increasing(l + 1, l + 2);
            assert(cost(l + 2) >= cost(l + 1) + 1);
            assert(cost(l + 1) == xp);
            assert(level_of(xp) == l + 1);
        } else {
            assert(level_of(xp) == l);
        }
    }
}

/// The level of `xp` is the only `l` with `cost(l) <= xp < cost(l + 1)`.
pub proof fn lemma_level_of_unique(xp: nat, l: nat)
    requires
        cost(l) <= xp,
        xp < cost(l + 1),
    ensures
        level_of(xp) == l,
{
    lemma_level_of_bounds(xp);
    let m = level_of(xp);
    if m < l {
        lemma_cost_increasing(m + 1, l);
    } else if l < m {
        lemma_cost_increasing(l + 1, m);
    }
}

/// Level of the experience total `xp`: the largest `L` with `50 * L^3 <= xp`.
pub fn get_level_number(xp: u32) -> (level: u32)
    ensures
        level == level_of(xp as nat),
        cost(level as nat) <= xp,
        xp < cost(level as nat + 1),
{
    let mut level: u64 = 0;
    proof {
        assert(cost(0) == 0);
    }
    loop
        invariant
            level <= 1700,
            cost(level as nat) <= xp,
        ensures
            xp < cost(level as nat + 1),
        decreases 1700 - level,
    {
        let next: u64 = level + 1;
        proof {
            assert(next * next <= 1701 * 1701) by (nonlinear_arith)
                requires next <= 1701;
            assert(next * next * next <= 1701 * 1701 * 1701) by (nonlinear_arith)
                requires next <= 1701, next * next <= 1701 * 1701;
        }
        let next_cost: u64 = next * next * next * XP_PER_CUBE;
        assert(next_cost == cost(next as nat));
        if next_cost > xp as u64 {
            break;
        }
        proof {
            if next > 1700 {
                lemma_cost_increasing(1701, next as nat);
                assert(cost(1701) > u32::MAX) by (nonlinear_arith);
            }
        }
        level = next;
    }
    proof {
        lemma_level_of_unique(xp as nat, level as nat);
    }
    level as u32
}

/// Experience needed to reach `level`: `50 * level^3`.
pub fn get_level_cost(level: u64) -> (xp: u64)
    requires
        cost(level as nat) <= u64::MAX,
    ensures
        xp == cost(level as nat),
{
    proof {
        let l = level as int;
        assert(l * l <= 50 * (l * l * l)) by (nonlinear_arith)
            requires l >= 0;
        assert(l * l * l <= 50 * (l * l * l)) by (nonlinear_arith)
            requires l >= 0;
    }
    level * level * level * XP_PER_CUBE
}

/// The level of the exact cost of a level is that level.
pub proof fn lemma_level_of_cost(level: nat)
    ensures
        level_of(cost(level)) == level,
{
    lemma_cost_strictly_increasing(level, level + 1);
    lemma_level_of_unique(cost(level), level);
}

/// More experience never means a lower level.
pub proof fn lemma_level_of_monotone(a: nat, b: nat)
    requires
        a <= b,
    ensures
        level_of(a) <= level_of(b),
{
    lemma_level_of_bounds(a);
    lemma_level_of_bounds(b);
    if level_of(b) < level_of(a) {
        lemma_cost_increasing(level_of(b) + 1, level_of(a));
    }
}

} // verus!
