//! A snapshot of the positions that are active.

use vstd::prelude::*;
use crate::word::Uint256;

verus! {

/// One active position: its identifier and the liquidity it holds.
#[derive(Clone, Copy, Debug)]
pub struct ActivePosition {
    pub position_id: Uint256,
    pub liquidity: u128,
}

/// The positions that a query found active, in the order of the answer. It
/// is a view of one moment and owns nothing.
#[derive(Clone, Debug)]
pub struct ActivePositionSet {
    entries: Vec<ActivePosition>,
}

impl View for ActivePositionSet {
    type V = Seq<ActivePosition>;

    closed spec fn view(&self) -> Seq<ActivePosition> {
        self.entries@
    }
}

/// The pairs that two columns make, as far as both reach.
pub open spec fn paired(ids: Seq<Uint256>, liquidities: Seq<u128>) -> Seq<ActivePosition> {
    Seq::new(
        if ids.len() <= liquidities.len() {
            ids.len()
        } else {
            liquidities.len()
        },
        |i: int| ActivePosition { position_id: ids[i], liquidity: liquidities[i] },
    )
}

impl ActivePositionSet {
    /// The snapshot that the two columns of an answer make: identifiers and
    /// liquidities, paired in order. Where one column is longer, what has no
    /// partner is left out.
    pub fn from_columns(ids: &Vec<Uint256>, liquidities: &Vec<u128>) -> (set: ActivePositionSet)
        ensures
            set@ == paired(ids@, liquidities@),
    {
        let n: usize = if ids.len() <= liquidities.len() {
            ids.len()
        } else {
            liquidities.len()
        };
        let mut entries: Vec<ActivePosition> = Vec::new();
        let mut i: usize = 0;
        while i < n
            invariant
                i <= n,
                n <= ids.len(),
                n <= liquidities.len(),
                entries@.len() == i,
                forall|j: int|
                    0 <= j < i ==> #[trigger] entries@[j] == (ActivePosition {
                        position_id: ids@[j],
                        liquidity: liquidities@[j],
                    }),
            decreases n - i,
        {
            entries.push(ActivePosition { position_id: ids[i], liquidity: liquidities[i] });
            i = i + 1;
        }
        assert(entries@ =~= paired(ids@, liquidities@));
        ActivePositionSet { entries }
    }

    /// The number of active positions.
    pub fn len(&self) -> (n: usize)
        ensures
            n == self@.len(),
    {
        self.entries.len()
    }

    /// Whether no position is active.
    pub fn is_empty(&self) -> (empty: bool)
        ensures
            empty == (self@.len() == 0),
    {
        self.entries.len() == 0
    }

    /// The position at a place of the snapshot, if it reaches that far.
    pub fn get(&self, index: usize) -> (entry: Option<ActivePosition>)
        ensures
            entry == if index < self@.len() {
                Some(self@[index as int])
            } else {
                None
            },
    {
        if index < self.entries.len() {
            Some(self.entries[index])
        } else {
            None
        }
    }

    /// The number of active positions, as the planner takes it.
    pub fn active_count(&self) -> (n: u64)
        ensures
            n == self@.len(),
    {
        self.entries.len() as u64
    }
}

} // verus!
