//! The one decision of a line-by-line comparison of two files: whether both
//! hold the same number of lines.

use vstd::prelude::*;

verus! {

/// How the line counts of a gold file and a test file compare.
#[derive(Clone, Copy, Debug, PartialEq, Eq, Structural)]
pub enum LineCount {
    /// Both files hold the same number of lines.
    Equal,
    /// The gold file holds more lines than the test file.
    ExcessGold,
    /// The test file holds more lines than the gold file.
    ExcessTest,
}

/// Compares the number of lines of the gold file with that of the test file.
pub fn compare_line_counts(gold: usize, test: usize) -> (outcome: LineCount)
    ensures
        outcome == LineCount::Equal <==> gold == test,
        outcome == LineCount::ExcessGold <==> gold > test,
        outcome == LineCount::ExcessTest <==> gold < test,
{
    if gold > test {
        LineCount::ExcessGold
    } else if gold < test {
        LineCount::ExcessTest
    } else {
        LineCount::Equal
    }
}

} // verus!
