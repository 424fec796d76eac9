//! The Life rule table: for each neighbor count, the state a cell must be in
//! for the entry to apply, and the state it takes when it does.

use vstd::prelude::*;

verus! {

/// The canonical Life table, indexed by neighbor count 0..=8.
pub open spec fn life_rule() -> Seq<(bool, bool)> {
    seq![
        (true, false),
        (true, false),
        (true, true),
        (false, true),
        (true, false),
        (true, false),
        (true, false),
        (true, false),
        (true, false),
    ]
}

/// The next state of a cell in state `s` with `n` live neighbors: the table
/// entry for `n` applies only when `s` equals its required state.
pub open spec fn next_state(s: bool, n: int) -> bool
    recommends
        0 <= n <= 8,
{
    let (required, result) = life_rule()[n];
    if s == required {
        result
    } else {
        s
    }
}

/// The table lookup reproduces classic Life: a cell is alive in the next
/// generation exactly when it has three live neighbors, or is alive and has two.
pub proof fn lemma_next_state_is_classic_life(s: bool, n: int)
    requires
        0 <= n <= 8,
    ensures
        next_state(s, n) == (n == 3 || (s && n == 2)),
{
}

/// Builds the canonical Life table.
pub fn life_rules() -> (r: Vec<(bool, bool)>)
    ensures
        r@ == life_rule(),
{
    let mut r: Vec<(bool, bool)> = Vec::new();
    // 0 and 1 neighbors: a live cell dies of isolation
    r.push((true, false));
    r.push((true, false));
    // 2 neighbors: a live cell survives
    r.push((true, true));
    // 3 neighbors: a dead cell is born
    r.push((false, true));
    // 4 or more neighbors: a live cell dies of overcrowding
    r.push((true, false));
    r.push((true, false));
    r.push((true, false));
    r.push((true, false));
    r.push((true, false));
    assert(r@ =~= life_rule());
    r
}

} // verus!
