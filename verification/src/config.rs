//! Building the rule configuration from plain command-line values.

use crate::cells::CellOpts;
use vstd::prelude::*;

verus! {

/// Options for the external terminal renderer; the core only carries them.
#[derive(Clone, Copy, Debug, PartialEq, Eq)]
pub struct TuiOpts {
    /// Render life levels as digits instead of blocks.
    pub numeric: bool,
    /// Use plain terminal colors instead of a heatmap.
    pub monochrome: bool,
}

/// Whether `list` holds the neighbor count `n`.
fn lists_count(list: &Vec<u8>, n: u8) -> (b: bool)
    ensures
        b == list@.contains(n),
{
    let mut i: usize = 0;
    while i < list.len()
        invariant
            i <= list@.len(),
            forall|k: int| 0 <= k < i ==> list@[k] != n,
        decreases list@.len() - i,
    {
        if list[i] == n {
            return true;
        }
        i = i + 1;
    }
    false
}

/// Builds the rule configuration: `grow` and `die` list the neighbor counts
/// (each between 0 and 8) that trigger growth and decay.
pub fn cellopts(no_corners: bool, life: u8, grow: &Vec<u8>, die: &Vec<u8>) -> (r: CellOpts)
    requires
        forall|i: int| 0 <= i < grow@.len() ==> grow@[i] <= 8,
        forall|i: int| 0 <= i < die@.len() ==> die@[i] <= 8,
    ensures
        r.corners == !no_corners,
        r.life == life,
        forall|n: int| 0 <= n < 9 ==> r.grow[n] == grow@.contains(n as u8),
        forall|n: int| 0 <= n < 9 ==> r.die[n] == die@.contains(n as u8),
{
    let grow_flags: [bool; 9] = [
        lists_count(grow, 0),
        lists_count(grow, 1),
        lists_count(grow, 2),
        lists_count(grow, 3),
        lists_count(grow, 4),
        lists_count(grow, 5),
        lists_count(grow, 6),
        lists_count(grow, 7),
        lists_count(grow, 8),
    ];
    let die_flags: [bool; 9] = [
        lists_count(die, 0),
        lists_count(die, 1),
        lists_count(die, 2),
        lists_count(die, 3),
        lists_count(die, 4),
        lists_count(die, 5),
        lists_count(die, 6),
        lists_count(die, 7),
        lists_count(die, 8),
    ];
    CellOpts { corners: !no_corners, life, grow: grow_flags, die: die_flags }
}

/// Packs the renderer options; they do not touch the automaton's rules.
pub fn tuiopts(numeric: bool, monochrome: bool) -> (r: TuiOpts)
    ensures
        r.numeric == numeric,
        r.monochrome == monochrome,
{
    TuiOpts { numeric, monochrome }
}

} // verus!
