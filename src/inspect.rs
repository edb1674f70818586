//! Checks and summaries of a set of shares, as read from files, before any
//! recovery is attempted.
use vstd::prelude::*;

use crate::share::Share;

verus! {

/// Why a set of shares is unfit for recovery.
#[derive(Debug, Clone, Copy, PartialEq, Eq, Structural)]
pub enum ShareSetFault {
    /// No share was given.
    Empty,
    /// The share at `position` (counted from 1) has a different length than the first.
    LengthMismatch { position: usize },
    /// The share at `position` (counted from 1) repeats the x-coordinate `x`.
    DuplicateX { x: u8, position: usize },
}

/// The first position from `from` on whose share differs in length from the first share.
pub open spec fn first_length_mismatch(shares: Seq<Share>, from: int) -> Option<int>
    decreases shares.len() - from,
{
    if from < 0 || from >= shares.len() {
        None
    } else if shares[from].y@.len() != shares[0].y@.len() {
        Some(from)
    } else {
        first_length_mismatch(shares, from + 1)
    }
}

/// The first position from `from` on whose x-coordinate an earlier share has.
pub open spec fn first_repeat(shares: Seq<Share>, from: int) -> Option<int>
    decreases shares.len() - from,
{
    if from < 0 || from >= shares.len() {
        None
    } else if exists|j: int| 0 <= j < from && #[trigger] shares[j].x.0 == shares[from].x.0 {
        Some(from)
    } else {
        first_repeat(shares, from + 1)
    }
}

/// The verdict on a set of shares: lengths are checked over the whole set
/// before x-coordinates are.
pub open spec fn share_set_verdict(shares: Seq<Share>) -> Result<(), ShareSetFault> {
    if shares.len() == 0 {
        Err(ShareSetFault::Empty)
    } else if first_length_mismatch(shares, 0) is Some {
        Err(
            ShareSetFault::LengthMismatch {
                position: (first_length_mismatch(shares, 0).unwrap() + 1) as usize,
            },
        )
    } else if first_repeat(shares, 0) is Some {
        let p = first_repeat(shares, 0).unwrap();
        Err(ShareSetFault::DuplicateX { x: shares[p].x.0, position: (p + 1) as usize })
    } else {
        Ok(())
    }
}

/// Checks that the shares are nonempty, agree on their length, and have
/// distinct x-coordinates; reports the first fault with its position.
pub fn validate_shares(shares: &[Share]) -> (r: Result<(), ShareSetFault>)
    ensures
        r == share_set_verdict(shares@),
{
    if shares.len() == 0 {
        return Err(ShareSetFault::Empty);
    }
    let expected_len = shares[0].y.len();
    let mut i: usize = 0;
    while i < shares.len()
        invariant
            i <= shares@.len(),
            shares@.len() > 0,
            expected_len == shares@[0].y@.len(),
            first_length_mismatch(shares@, 0) == first_length_mismatch(shares@, i as int),
        decreases shares@.len() - i,
    {
        if shares[i].y.len() != expected_len {
            return Err(ShareSetFault::LengthMismatch { position: i + 1 });
        }
        i += 1;
    }
    let mut seen: Vec<bool> = Vec::new();
    let mut v: usize = 0;
    while v < 256
        invariant
            v <= 256,
            seen@.len() == v,
            forall|k: int| 0 <= k < v ==> !seen@[k],
        decreases 256 - v,
    {
        seen.push(false);
        v += 1;
    }
    let mut i: usize = 0;
    while i < shares.len()
        invariant
            i <= shares@.len(),
            shares@.len() > 0,
            first_length_mismatch(shares@, 0) is None,
            first_repeat(shares@, 0) == first_repeat(shares@, i as int),
            seen@.len() == 256,
            forall|k: int|
                0 <= k < 256 ==> (seen@[k] <==> exists|j: int|
                    0 <= j < i && (#[trigger] shares@[j]).x.0 == k),
        decreases shares@.len() - i,
    {
        let x = shares[i].x.0;
        if seen[x as usize] {
            proof {
                assert(exists|j: int| 0 <= j < i && #[trigger] shares@[j].x.0 == shares@[i as int].x.0);
            }
            return Err(ShareSetFault::DuplicateX { x, position: i + 1 });
        }
        proof {
            assert(!exists|j: int| 0 <= j < i && #[trigger] shares@[j].x.0 == shares@[i as int].x.0);
        }
        seen.set(x as usize, true);
        i += 1;
        proof {
            assert forall|k: int| 0 <= k < 256 implies (seen@[k] <==> exists|j: int|
                0 <= j < i && (#[trigger] shares@[j]).x.0 == k) by {
                if k == x {
                    assert(shares@[i - 1].x.0 == k);
                } else if seen@[k] {
                    let j = choose|j: int| 0 <= j < i - 1 && (#[trigger] shares@[j]).x.0 == k;
                    assert(0 <= j < i && shares@[j].x.0 == k);
                }
            }
        }
    }
    Ok(())
}

/// The number of shares before `e` with x-coordinate `v`.
pub open spec fn x_count(shares: Seq<Share>, v: int, e: int) -> nat
    decreases e,
{
    if e <= 0 {
        0
    } else {
        x_count(shares, v, e - 1) + if shares[e - 1].x.0 == v {
            1nat
        } else {
            0nat
        }
    }
}

/// The number of values below `v` that occur as an x-coordinate.
pub open spec fn occurring_count(shares: Seq<Share>, v: int) -> nat
    decreases v,
{
    if v <= 0 {
        0
    } else {
        occurring_count(shares, v - 1) + if x_count(shares, v - 1, shares.len() as int) > 0 {
            1nat
        } else {
            0nat
        }
    }
}

/// The x-coordinates below `v` that occur more than once, ascending, each with its count.
pub open spec fn repeated_xs(shares: Seq<Share>, v: int) -> Seq<(u8, usize)>
    decreases v,
{
    if v <= 0 {
        seq![]
    } else {
        let c = x_count(shares, v - 1, shares.len() as int);
        repeated_xs(shares, v - 1) + if c > 1 {
            seq![((v - 1) as u8, c as usize)]
        } else {
            seq![]
        }
    }
}

/// All shares have as many y-values as the first.
pub open spec fn uniform_length(shares: Seq<Share>) -> bool {
    forall|j: int| 0 <= j < shares.len() ==> #[trigger] shares[j].y@.len() == shares[0].y@.len()
}

/// What a set of shares holds.
pub struct ShareSetSummary {
    pub total_shares: usize,
    pub unique_x_coordinates: usize,
    /// The common number of y-values, if the shares agree on it.
    pub y_length: Option<usize>,
    /// The x-coordinates that occur more than once, ascending, with their counts.
    pub duplicates: Vec<(u8, usize)>,
}

/// Summarizes a set of shares: how many there are, how many distinct
/// x-coordinates they have, their common length, and the repeated x-coordinates.
/// The counts are kept in a table with one slot per byte value rather than in
/// a hash map, so that the repeated coordinates come out in ascending order on
/// every run instead of in the map's per-process iteration order.
pub fn summarize_shares(shares: &[Share]) -> (r: ShareSetSummary)
    ensures
        r.total_shares == shares@.len(),
        r.unique_x_coordinates == occurring_count(shares@, 256),
        r.y_length == if shares@.len() > 0 && uniform_length(shares@) {
            Some(shares@[0].y@.len() as usize)
        } else {
            None::<usize>
        },
        r.duplicates@ == repeated_xs(shares@, 256),
{
    let mut counts: Vec<usize> = Vec::new();
    let mut v: usize = 0;
    while v < 256
        invariant
            v <= 256,
            counts@.len() == v,
            forall|k: int| 0 <= k < v ==> counts@[k] == 0,
        decreases 256 - v,
    {
        counts.push(0);
        v += 1;
    }
    let mut uniform = true;
    let mut i: usize = 0;
    while i < shares.len()
        invariant
            i <= shares@.len(),
            counts@.len() == 256,
            forall|k: int| 0 <= k < 256 ==> #[trigger] counts@[k] == x_count(shares@, k, i as int),
            forall|k: int| 0 <= k < 256 ==> #[trigger] x_count(shares@, k, i as int) <= i,
            uniform == (forall|j: int| 0 <= j < i ==> #[trigger] shares@[j].y@.len() == shares@[0].y@.len()),
        decreases shares@.len() - i,
    {
        let x = shares[i].x.0 as usize;
        if shares[i].y.len() != shares[0].y.len() {
            uniform = false;
        }
        let c = counts[x];
        counts.set(x, c + 1);
        i += 1;
        proof {
            assert forall|k: int| 0 <= k < 256 implies #[trigger] counts@[k] == x_count(
                shares@,
                k,
                i as int,
            ) by {}
            assert forall|k: int| 0 <= k < 256 implies #[trigger] x_count(shares@, k, i as int)
                <= i by {
                assert(x_count(shares@, k, i - 1) <= i - 1);
            }
        }
    }
    let mut unique: usize = 0;
    let mut duplicates: Vec<(u8, usize)> = Vec::new();
    let mut v: usize = 0;
    while v < 256
        invariant
            v <= 256,
            counts@.len() == 256,
            forall|k: int| 0 <= k < 256 ==> #[trigger] counts@[k] == x_count(shares@, k, shares@.len() as int),
            unique == occurring_count(shares@, v as int),
            unique <= v,
            duplicates@ == repeated_xs(shares@, v as int),
        decreases 256 - v,
    {
        let c = counts[v];
        if c > 0 {
            unique += 1;
        }
        if c > 1 {
            duplicates.push((v as u8, c));
        }
        v += 1;
        proof {
            assert(duplicates@ =~= repeated_xs(shares@, v as int));
        }
    }
    let y_length = if shares.len() > 0 && uniform {
        Some(shares[0].y.len())
    } else {
        None
    };
    ShareSetSummary { total_shares: shares.len(), unique_x_coordinates: unique, y_length, duplicates }
}

/// The threshold to assume for a set of shares: the first threshold that
/// their metadata records, else the number of shares (as a byte, wrapping).
pub fn inferred_threshold(recorded: &[Option<u8>], share_count: usize) -> (r: u8)
    ensures
        (exists|j: int| 0 <= j < recorded@.len() && recorded@[j] is Some) ==> (exists|j: int|
            0 <= j < recorded@.len() && recorded@[j] == Some(r) && forall|m: int|
                0 <= m < j ==> recorded@[m] is None),
        (forall|j: int| 0 <= j < recorded@.len() ==> recorded@[j] is None) ==> r == share_count as u8,
{
    let mut i: usize = 0;
    while i < recorded.len()
        invariant
            i <= recorded@.len(),
            forall|m: int| 0 <= m < i ==> recorded@[m] is None,
        decreases recorded@.len() - i,
    {
        if let Some(t) = recorded[i] {
            return t;
        }
        i += 1;
    }
    share_count as u8
}

} // verus!
