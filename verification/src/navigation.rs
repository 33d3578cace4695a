//! Submarine navigator: accumulate horizontal position and depth from a
//! sequence of movement commands, under two rules. The simple rule moves
//! horizontally on `forward` and vertically on `up`/`down`. The aim-weighted
//! rule lets `up`/`down` adjust a running aim instead, and `forward` then
//! adds `aim * magnitude` to the depth.

use vstd::prelude::*;

verus! {

/// A movement command: a direction and a magnitude.
#[derive(Debug, Clone, Copy, PartialEq, Eq, Structural)]
pub enum Operation {
    Forward(i32),
    Down(i32),
    Up(i32),
}

/// Final horizontal position: `forward` adds its magnitude, vertical
/// commands leave it unchanged. The starting position is 0.
pub open spec fn spec_horizontal(ops: Seq<Operation>) -> int
    decreases ops.len(),
{
    if ops.len() == 0 {
        0
    } else {
        spec_horizontal(ops.drop_last()) + match ops.last() {
            Operation::Forward(units) => units as int,
            Operation::Down(_) => 0,
            Operation::Up(_) => 0,
        }
    }
}

/// Final depth under simple accumulation: `down` adds its magnitude, `up`
/// subtracts it, `forward` leaves the depth unchanged. The starting depth
/// is 0. The running aim of the aim-weighted rule follows this very same
/// accumulation, so this function also gives the aim after a prefix.
pub open spec fn spec_depth(ops: Seq<Operation>) -> int
    decreases ops.len(),
{
    if ops.len() == 0 {
        0
    } else {
        spec_depth(ops.drop_last()) + match ops.last() {
            Operation::Forward(_) => 0,
            Operation::Down(units) => units as int,
            Operation::Up(units) => -(units as int),
        }
    }
}

/// Final depth under aim-weighted accumulation: `up` and `down` adjust the
/// aim (see `spec_depth`), and `forward` adds `aim * magnitude` to the
/// depth. The starting depth and aim are 0.
pub open spec fn spec_aim_depth(ops: Seq<Operation>) -> int
    decreases ops.len(),
{
    if ops.len() == 0 {
        0
    } else {
        spec_aim_depth(ops.drop_last()) + match ops.last() {
            Operation::Forward(units) => spec_depth(ops.drop_last()) * units as int,
            Operation::Down(_) => 0,
            Operation::Up(_) => 0,
        }
    }
}

/// Whether a value fits in a 32-bit signed machine integer.
pub open spec fn fits_i32(v: int) -> bool {
    i32::MIN as int <= v <= i32::MAX as int
}

/// Whether every prefix of the command sequence keeps all three
/// accumulators (horizontal, simple depth, aim-weighted depth) within
/// 32-bit signed range; the aim coincides with the simple depth.
pub open spec fn prefixes_fit_i32(ops: Seq<Operation>) -> bool {
    forall|i: int|
        0 <= i <= ops.len() ==> fits_i32(spec_horizontal(#[trigger] ops.take(i))) && fits_i32(
            spec_depth(ops.take(i)),
        ) && fits_i32(spec_aim_depth(ops.take(i)))
}

/// A command sequence of `forward` commands alone never moves either depth
/// accumulator: the simple depth stays 0 because `forward` does not touch
/// it, and the aim-weighted depth stays 0 because the aim never leaves 0.
pub proof fn lemma_forward_only_keeps_depth_zero(ops: Seq<Operation>)
    requires
        forall|i: int| 0 <= i < ops.len() ==> ops[i] is Forward,
    ensures
        spec_depth(ops) == 0,
        spec_aim_depth(ops) == 0,
    decreases ops.len(),
{
    if ops.len() > 0 {
        lemma_forward_only_keeps_depth_zero(ops.drop_last());
    }
}

/// Final horizontal position after applying every command in order.
pub fn calculate_horizontal(operations: &Vec<Operation>) -> (x: i32)
    requires
        forall|i: int|
            0 <= i <= operations@.len() ==> fits_i32(
                spec_horizontal(#[trigger] operations@.take(i)),
            ),
    ensures
        x == spec_horizontal(operations@),
{
    let ghost ops = operations@;
    let n = operations.len();
    let mut x: i32 = 0;
    let mut idx: usize = 0;
    while idx < n
        invariant
            n == ops.len(),
            ops == operations@,
            idx <= n,
            forall|i: int| 0 <= i <= n ==> fits_i32(spec_horizontal(#[trigger] ops.take(i))),
            x == spec_horizontal(ops.take(idx as int)),
        decreases n - idx,
    {
        proof {
            assert(ops.take(idx as int + 1).drop_last() =~= ops.take(idx as int));
            assert(ops.take(idx as int + 1).last() == ops[idx as int]);
        }
        match operations[idx] {
            Operation::Forward(units) => {
                x = ((x as i64) + (units as i64)) as i32;
            },
            Operation::Down(_) => {},
            Operation::Up(_) => {},
        }
        idx = idx + 1;
    }
    proof {
        assert(ops.take(n as int) =~= ops);
    }
    x
}

/// Final depth after applying every command in order, under simple
/// accumulation.
pub fn calculate_depth(operations: &Vec<Operation>) -> (y: i32)
    requires
        forall|i: int|
            0 <= i <= operations@.len() ==> fits_i32(spec_depth(#[trigger] operations@.take(i))),
    ensures
        y == spec_depth(operations@),
{
    let ghost ops = operations@;
    let n = operations.len();
    let mut y: i32 = 0;
    let mut idx: usize = 0;
    while idx < n
        invariant
            n == ops.len(),
            ops == operations@,
            idx <= n,
            forall|i: int| 0 <= i <= n ==> fits_i32(spec_depth(#[trigger] ops.take(i))),
            y == spec_depth(ops.take(idx as int)),
        decreases n - idx,
    {
        proof {
            assert(ops.take(idx as int + 1).drop_last() =~= ops.take(idx as int));
            assert(ops.take(idx as int + 1).last() == ops[idx as int]);
        }
        match operations[idx] {
            Operation::Forward(_) => {},
            Operation::Down(units) => {
                y = ((y as i64) + (units as i64)) as i32;
            },
            Operation::Up(units) => {
                y = ((y as i64) - (units as i64)) as i32;
            },
        }
        idx = idx + 1;
    }
    proof {
        assert(ops.take(n as int) =~= ops);
    }
    y
}

/// Final depth after applying every command in order, under aim-weighted
/// accumulation. The running aim equals the simple depth of the prefix
/// consumed so far, which is why the bound on `spec_depth` prefixes is
/// needed as well.
pub fn calculate_depth_using_aim(operations: &Vec<Operation>) -> (depth: i32)
    requires
        forall|i: int|
            0 <= i <= operations@.len() ==> fits_i32(spec_depth(#[trigger] operations@.take(i)))
                && fits_i32(spec_aim_depth(operations@.take(i))),
    ensures
        depth == spec_aim_depth(operations@),
{
    let ghost ops = operations@;
    let n = operations.len();
    let mut aim: i32 = 0;
    let mut depth: i32 = 0;
    let mut idx: usize = 0;
    while idx < n
        invariant
            n == ops.len(),
            ops == operations@,
            idx <= n,
            forall|i: int|
                0 <= i <= n ==> fits_i32(spec_depth(#[trigger] ops.take(i))) && fits_i32(
                    spec_aim_depth(ops.take(i)),
                ),
            aim == spec_depth(ops.take(idx as int)),
            depth == spec_aim_depth(ops.take(idx as int)),
        decreases n - idx,
    {
        proof {
            assert(ops.take(idx as int + 1).drop_last() =~= ops.take(idx as int));
            assert(ops.take(idx as int + 1).last() == ops[idx as int]);
        }
        match operations[idx] {
            Operation::Forward(units) => {
                depth = ((depth as i64) + (aim as i64) * (units as i64)) as i32;
            },
            Operation::Down(units) => {
                aim = ((aim as i64) + (units as i64)) as i32;
            },
            Operation::Up(units) => {
                aim = ((aim as i64) - (units as i64)) as i32;
            },
        }
        idx = idx + 1;
    }
    proof {
        assert(ops.take(n as int) =~= ops);
    }
    depth
}

/// Run the whole navigation in one pass and return the triple
/// (horizontal position, simple depth, aim-weighted depth), or `None`
/// exactly when some prefix of the commands drives one of the three
/// accumulators outside 32-bit signed range.
pub fn navigate(operations: &Vec<Operation>) -> (r: Option<(i32, i32, i32)>)
    ensures
        (match r {
            Some(t) => prefixes_fit_i32(operations@) && t.0 == spec_horizontal(operations@) && t.1
                == spec_depth(operations@) && t.2 == spec_aim_depth(operations@),
            None => !prefixes_fit_i32(operations@),
        }),
{
    let ghost ops = operations@;
    let n = operations.len();
    let mut x: i64 = 0;
    let mut aim: i64 = 0;
    let mut depth: i64 = 0;
    let mut idx: usize = 0;
    while idx < n
        invariant
            n == ops.len(),
            ops == operations@,
            idx <= n,
            x == spec_horizontal(ops.take(idx as int)),
            aim == spec_depth(ops.take(idx as int)),
            depth == spec_aim_depth(ops.take(idx as int)),
            fits_i32(x as int),
            fits_i32(aim as int),
            fits_i32(depth as int),
            forall|i: int|
                0 <= i <= idx ==> fits_i32(spec_horizontal(#[trigger] ops.take(i))) && fits_i32(
                    spec_depth(ops.take(i)),
                ) && fits_i32(spec_aim_depth(ops.take(i))),
        decreases n - idx,
    {
        proof {
            assert(ops.take(idx as int + 1).drop_last() =~= ops.take(idx as int));
            assert(ops.take(idx as int + 1).last() == ops[idx as int]);
        }
        match operations[idx] {
            Operation::Forward(units) => {
                proof {
                    assert(-0x4000_0000_0000_0000 <= (aim as int) * (units as int)
                        <= 0x4000_0000_0000_0000) by (nonlinear_arith)
                        requires
                            -0x8000_0000 <= aim as int <= 0x8000_0000,
                            -0x8000_0000 <= units as int <= 0x8000_0000,
                    ;
                }
                x = x + (units as i64);
                depth = depth + aim * (units as i64);
            },
            Operation::Down(units) => {
                aim = aim + (units as i64);
            },
            Operation::Up(units) => {
                aim = aim - (units as i64);
            },
        }
        if x < i32::MIN as i64 || x > i32::MAX as i64 || aim < i32::MIN as i64 || aim
            > i32::MAX as i64 || depth < i32::MIN as i64 || depth > i32::MAX as i64 {
            proof {
                assert(!prefixes_fit_i32(ops)) by {
                    assert(!(fits_i32(spec_horizontal(ops.take(idx as int + 1))) && fits_i32(
                        spec_depth(ops.take(idx as int + 1)),
                    ) && fits_i32(spec_aim_depth(ops.take(idx as int + 1)))));
                };
            }
            return None;
        }
        idx = idx + 1;
    }
    proof {
        assert(ops.take(n as int) =~= ops);
    }
    Some((x as i32, aim as i32, depth as i32))
}

} // verus!
