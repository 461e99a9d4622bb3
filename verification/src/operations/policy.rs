//! How hard to compress for a given target: the pass parameters of each bracket
//! of target percentages, and the rules that stop the search.

use vstd::prelude::*;

verus! {

/// The pass parameters for the targets from `min_percent` to `max_percent`.
#[derive(Debug, Clone, Copy, PartialEq, Eq, Structural)]
pub struct Bracket {
    /// Lowest target percentage of the bracket.
    pub min_percent: u8,
    /// Highest target percentage of the bracket.
    pub max_percent: u8,
    /// Threshold of the deduplication pass; `None` skips the pass.
    pub dedup_threshold: Option<u8>,
    /// Palette size of the first colour pass; 256 skips the pass.
    pub colors: u16,
    /// Quality of the first lossy pass; 100 skips the pass.
    pub quality: u8,
    /// Palette size of the second colour pass; skipped unless below `colors`.
    pub colors_again: u16,
    /// Quality of the second lossy pass; skipped unless below `quality`.
    pub quality_again: u8,
    /// Whether partial frames are left as they are before the passes run.
    pub skip_normalization: bool,
}

/// One pass over the sequence.
#[derive(Debug, Clone, Copy, PartialEq, Eq, Structural)]
pub enum Pass {
    /// Nothing is done.
    Skip,
    /// Look-alike frames are merged.
    Deduplicate { threshold: u8 },
    /// Colours are reduced to a learned palette.
    ReduceColors { max_colors: u16 },
    /// Colour channels are rounded down.
    Lossy { quality: u8 },
}

/// Number of passes in the sequence of passes.
pub const PASS_COUNT: u8 = 5;

/// Quality of the one extra lossy pass that is tried when all passes are through
/// and the target is still missed.
pub const FALLBACK_QUALITY: u8 = 70;

/// Targets below this percentage get the extra lossy pass.
pub const FALLBACK_BELOW: u8 = 70;

impl Bracket {
    /// The bracket covers the target percentage.
    pub open spec fn covers(self, percent: int) -> bool {
        self.min_percent <= percent <= self.max_percent
    }

    /// Palette sizes are at least 1.
    pub open spec fn wf(self) -> bool {
        self.colors >= 1 && self.colors_again >= 1
    }

    /// The pass that runs at position `step` of the sequence: merging, colours,
    /// lossy, colours again, lossy again.
    pub open spec fn pass_at(self, step: int) -> Pass {
        if step == 0 {
            match self.dedup_threshold {
                Some(threshold) => Pass::Deduplicate { threshold },
                None => Pass::Skip,
            }
        } else if step == 1 && self.colors < 256 {
            Pass::ReduceColors { max_colors: self.colors }
        } else if step == 2 && self.quality < 100 {
            Pass::Lossy { quality: self.quality }
        } else if step == 3 && self.colors_again < self.colors {
            Pass::ReduceColors { max_colors: self.colors_again }
        } else if step == 4 && self.quality_again < self.quality {
            Pass::Lossy { quality: self.quality_again }
        } else {
            Pass::Skip
        }
    }

    /// The pass that runs at position `step` of the sequence.
    pub fn pass(&self, step: u8) -> (pass: Pass)
        ensures
            pass == self.pass_at(step as int),
    {
        if step == 0 {
            match self.dedup_threshold {
                Some(threshold) => Pass::Deduplicate { threshold },
                None => Pass::Skip,
            }
        } else if step == 1 && self.colors < 256 {
            Pass::ReduceColors { max_colors: self.colors }
        } else if step == 2 && self.quality < 100 {
            Pass::Lossy { quality: self.quality }
        } else if step == 3 && self.colors_again < self.colors {
            Pass::ReduceColors { max_colors: self.colors_again }
        } else if step == 4 && self.quality_again < self.quality {
            Pass::Lossy { quality: self.quality_again }
        } else {
            Pass::Skip
        }
    }
}

/// A bracket that keeps all 256 colours, never merges frames and leaves partial
/// frames alone; only the two lossy qualities differ between such brackets.
pub open spec fn lossy_only(min_percent: u8, max_percent: u8, quality: u8, quality_again: u8) -> Bracket {
    Bracket {
        min_percent,
        max_percent,
        dedup_threshold: None,
        colors: 256,
        quality,
        colors_again: 256,
        quality_again,
        skip_normalization: true,
    }
}

/// The brackets, from the gentlest to the harshest. Together they cover the
/// targets from 1 to 99, each target once.
pub open spec fn bracket_table() -> Seq<Bracket> {
    seq![
        lossy_only(90, 99, 100, 100),
        lossy_only(80, 89, 98, 98),
        lossy_only(70, 79, 96, 94),
        lossy_only(60, 69, 94, 90),
        lossy_only(50, 59, 92, 86),
        lossy_only(40, 49, 90, 84),
        lossy_only(30, 39, 88, 82),
        lossy_only(20, 29, 85, 79),
        lossy_only(1, 19, 82, 76),
    ]
}

/// The bracket of the table that covers `percent`.
pub open spec fn bracket_for(percent: int) -> Bracket {
    let table = bracket_table();
    table[choose|i: int| 0 <= i < table.len() && (#[trigger] table[i]).covers(percent)]
}

/// Every target from 1 to 99 is covered by one bracket of the table, and by one
/// only. No bracket of the table merges frames or composites partial frames.
pub proof fn lemma_brackets_partition(percent: int)
    requires
        1 <= percent <= 99,
    ensures
        bracket_for(percent).covers(percent),
        bracket_for(percent).wf(),
        forall|i: int|
            0 <= i < bracket_table().len() && (#[trigger] bracket_table()[i]).covers(percent)
                ==> bracket_table()[i] == bracket_for(percent),
        exists|i: int| 0 <= i < bracket_table().len() && bracket_table()[i] == bracket_for(percent),
        bracket_for(percent).dedup_threshold is None,
        bracket_for(percent).skip_normalization,
{
    let table = bracket_table();
    let i = (if percent >= 90 {
        0
    } else if percent >= 80 {
        1
    } else if percent >= 70 {
        2
    } else if percent >= 60 {
        3
    } else if percent >= 50 {
        4
    } else if percent >= 40 {
        5
    } else if percent >= 30 {
        6
    } else if percent >= 20 {
        7
    } else {
        8int
    });
    assert(table[i].covers(percent));
    let chosen = choose|i: int| 0 <= i < table.len() && (#[trigger] table[i]).covers(percent);
    assert(table[chosen].covers(percent));
    assert(chosen == i);
    assert(table[i] == bracket_for(percent));
}

/// Builds a bracket that keeps all 256 colours, never merges frames and leaves
/// partial frames alone.
fn lossy_only_bracket(min_percent: u8, max_percent: u8, quality: u8, quality_again: u8) -> (bracket:
    Bracket)
    ensures
        bracket == lossy_only(min_percent, max_percent, quality, quality_again),
{
    Bracket {
        min_percent,
        max_percent,
        dedup_threshold: None,
        colors: 256,
        quality,
        colors_again: 256,
        quality_again,
        skip_normalization: true,
    }
}

/// The brackets, from the gentlest to the harshest.
pub fn brackets() -> (table: Vec<Bracket>)
    ensures
        table@ == bracket_table(),
{
    let mut table: Vec<Bracket> = Vec::new();
    table.push(lossy_only_bracket(90, 99, 100, 100));
    table.push(lossy_only_bracket(80, 89, 98, 98));
    table.push(lossy_only_bracket(70, 79, 96, 94));
    table.push(lossy_only_bracket(60, 69, 94, 90));
    table.push(lossy_only_bracket(50, 59, 92, 86));
    table.push(lossy_only_bracket(40, 49, 90, 84));
    table.push(lossy_only_bracket(30, 39, 88, 82));
    table.push(lossy_only_bracket(20, 29, 85, 79));
    table.push(lossy_only_bracket(1, 19, 82, 76));
    assert(table@ =~= bracket_table());
    table
}

/// Looks up the bracket that covers a target percentage; there is none for
/// targets outside of 1 to 99.
pub fn find_bracket(percent: u8) -> (found: Option<Bracket>)
    ensures
        found == if 1 <= percent <= 99 {
            Some(bracket_for(percent as int))
        } else {
            None::<Bracket>
        },
{
    let table = brackets();
    let mut i: usize = 0;
    while i < table.len()
        invariant
            i <= table.len(),
            table@ == bracket_table(),
            forall|j: int| 0 <= j < i ==> !(#[trigger] table@[j]).covers(percent as int),
        decreases table.len() - i,
    {
        let bracket = table[i];
        if bracket.min_percent <= percent && percent <= bracket.max_percent {
            proof {
                lemma_brackets_partition(percent as int);
            }
            return Some(bracket);
        }
        i = i + 1;
    }
    proof {
        if 1 <= percent <= 99 {
            lemma_brackets_partition(percent as int);
        }
    }
    None
}

/// What the controller does after a pass was measured.
#[derive(Debug, Clone, Copy, PartialEq, Eq, Structural)]
pub enum Verdict {
    /// The next pass runs.
    Continue,
    /// The size is on target or near enough: the search ends here.
    Reached,
    /// The size is less than half the target: the search ends before more
    /// quality is lost.
    Abort,
}

/// The size to aim for: `percent` hundredths of the original size, rounded down.
pub open spec fn target_size(original_size: int, percent: int) -> int {
    original_size * percent / 100
}

/// `size` is at most `percent` hundredths of `original_size`.
pub open spec fn at_most_percent(size: int, original_size: int, percent: int) -> bool {
    size * 100 <= percent * original_size
}

/// `size` is at least `percent` hundredths of `original_size`.
pub open spec fn at_least_percent(size: int, original_size: int, percent: int) -> bool {
    size * 100 >= percent * original_size
}

/// The size is close enough to the target to stop, by the rule of the target's range.
///
/// From 90 up: within 10 points above the target, or after the fourth pass.
/// From 70 up: within 15 points above the target, and after the fourth pass.
/// From 40 up: from 5 points below to 10 points above the target.
/// Below 40: within 5 points above the target.
pub open spec fn near_target(percent: int, step: int, size: int, original_size: int) -> bool {
    if percent >= 90 {
        at_most_percent(size, original_size, percent + 10) || step >= 3
    } else if percent >= 70 {
        at_most_percent(size, original_size, percent + 15) && step >= 3
    } else if percent >= 40 {
        at_least_percent(size, original_size, percent - 5) && at_most_percent(
            size,
            original_size,
            percent + 10,
        )
    } else {
        at_most_percent(size, original_size, percent + 5)
    }
}

/// The verdict after the pass at position `step` gave an encoding of `size` bytes.
///
/// Targets below 15 stop as soon as the size is on target. Every target stops
/// when its size is near the target. Targets above 20 stop when the size has
/// fallen below half the target.
pub open spec fn verdict_after(percent: int, step: int, size: int, original_size: int) -> Verdict {
    if size <= target_size(original_size, percent) && percent < 15 {
        Verdict::Reached
    } else if near_target(percent, step, size, original_size) {
        Verdict::Reached
    } else if size < target_size(original_size, percent) / 2 && percent > 20 {
        Verdict::Abort
    } else {
        Verdict::Continue
    }
}

/// The extra lossy pass is due: no rule stopped the search, the size is still
/// above the target, and the target is below 70.
pub open spec fn fallback_due(percent: int, verdict: Verdict, size: int, original_size: int) -> bool {
    verdict != Verdict::Reached && size > target_size(original_size, percent) && percent
        < FALLBACK_BELOW
}

/// `points` times `amount`, in a width in which it always fits.
fn times(amount: u64, points: u8) -> (product: u128)
    ensures
        product == amount * points,
{
    assert(amount * points <= 0xffff_ffff_ffff_ffff * 0xff) by (nonlinear_arith)
        requires
            amount <= 0xffff_ffff_ffff_ffff,
            points <= 0xff,
    ;
    (amount as u128) * (points as u128)
}

/// Computes the size to aim for.
pub fn compute_target_size(original_size: u64, percent: u8) -> (target: u64)
    requires
        percent <= 100,
    ensures
        target == target_size(original_size as int, percent as int),
{
    let scaled: u128 = times(original_size, percent) / 100;
    assert(original_size * percent / 100 <= original_size) by (nonlinear_arith)
        requires
            0 <= percent <= 100,
            0 <= original_size,
    ;
    scaled as u64
}

/// Decides what to do after the pass at position `step` was measured.
pub fn judge(percent: u8, step: u8, size: u64, original_size: u64) -> (verdict: Verdict)
    requires
        1 <= percent <= 99,
    ensures
        verdict == verdict_after(percent as int, step as int, size as int, original_size as int),
{
    let target: u64 = compute_target_size(original_size, percent);
    let size_100: u128 = times(size, 100);
    if size <= target && percent < 15 {
        return Verdict::Reached;
    }
    let near: bool = if percent >= 90 {
        size_100 <= times(original_size, percent + 10) || step >= 3
    } else if percent >= 70 {
        size_100 <= times(original_size, percent + 15) && step >= 3
    } else if percent >= 40 {
        size_100 >= times(original_size, percent - 5) && size_100 <= times(
            original_size,
            percent + 10,
        )
    } else {
        size_100 <= times(original_size, percent + 5)
    };
    if near {
        Verdict::Reached
    } else if size < target / 2 && percent > 20 {
        Verdict::Abort
    } else {
        Verdict::Continue
    }
}

/// Tells whether the extra lossy pass is due.
pub fn needs_fallback(percent: u8, verdict: Verdict, size: u64, original_size: u64) -> (due: bool)
    requires
        1 <= percent <= 99,
    ensures
        due == fallback_due(percent as int, verdict, size as int, original_size as int),
{
    let target: u64 = compute_target_size(original_size, percent);
    let reached: bool = match verdict {
        Verdict::Reached => true,
        _ => false,
    };
    !reached && size > target && percent < FALLBACK_BELOW
}

} // verus!
