//! Breakpoint tables and the classification of a viewport width.
//!
//! A table is an ascending sequence of half-open ranges that together cover
//! every width from zero upwards, so that each width falls into exactly one.

use crate::app_theme::Breakpoint;
use vstd::prelude::*;

verus! {

/// One named range of viewport widths: `lower` inclusive, `upper` exclusive,
/// with `None` for a range that has no upper end.
#[derive(Clone, Copy, Debug, PartialEq, Eq)]
pub struct BreakpointRange {
    pub name: Breakpoint,
    pub lower: u32,
    pub upper: Option<u32>,
}

/// What is wrong between two neighbouring ranges of a sequence.
#[derive(Clone, Copy, Debug, PartialEq, Eq)]
pub enum PairDefect {
    /// The left range has no upper end, so nothing can follow it.
    Unbounded,
    /// The left range ends before the right one starts.
    Gap,
    /// The left range ends after the right one starts.
    Overlap,
    /// The two meet, but the left range does not start below the right one.
    NotAscending,
}

/// Why a sequence of ranges is no breakpoint table.
#[derive(Clone, Copy, Debug, PartialEq, Eq)]
pub enum ConfigError {
    /// The sequence is empty.
    Empty,
    /// The first range starts at `lower`, not at zero.
    FirstNotZero { lower: u32 },
    /// The ranges at positions `left` and `left + 1` do not fit together.
    Pair { left: usize, defect: PairDefect },
    /// The last range ends at `upper` instead of being open-ended.
    LastBounded { upper: u32 },
}

/// A width that cannot be classified.
#[derive(Clone, Copy, Debug, PartialEq, Eq)]
pub struct InvalidInputError {
    pub width: i64,
}

/// Whether `width` lies in `range`.
pub open spec fn contains(range: BreakpointRange, width: int) -> bool {
    &&& range.lower <= width
    &&& range.upper matches Some(upper) ==> width < upper
}

/// Whether `right` may follow `left` in a table: they meet, and ascend.
pub open spec fn fits(left: BreakpointRange, right: BreakpointRange) -> bool {
    left.upper == Some(right.lower) && left.lower < right.lower
}

/// Whether the ranges at positions `i` and `i + 1` of `s` fit together.
pub open spec fn joined_at(s: Seq<BreakpointRange>, i: int) -> bool {
    fits(s[i], s[i + 1])
}

/// The defect between two neighbours that do not fit.
pub open spec fn pair_defect(left: BreakpointRange, right: BreakpointRange) -> PairDefect {
    match left.upper {
        None => PairDefect::Unbounded,
        Some(upper) => if upper < right.lower {
            PairDefect::Gap
        } else if upper > right.lower {
            PairDefect::Overlap
        } else {
            PairDefect::NotAscending
        },
    }
}

/// The table invariant: the ranges start at zero, each one ends where the
/// next begins, they ascend strictly, and the last one is open-ended.
pub open spec fn valid_ranges(s: Seq<BreakpointRange>) -> bool {
    &&& s.len() > 0
    &&& s[0].lower == 0
    &&& forall|i: int| 0 <= i < s.len() - 1 ==> #[trigger] joined_at(s, i)
    &&& s[s.len() - 1].upper is None
}

/// Whether `e` names the first thing that keeps `s` from being a table:
/// emptiness, then the start, then the leftmost defective pair, then the end.
pub open spec fn reports(s: Seq<BreakpointRange>, e: ConfigError) -> bool {
    match e {
        ConfigError::Empty => s.len() == 0,
        ConfigError::FirstNotZero { lower } => s.len() > 0 && s[0].lower == lower && lower != 0,
        ConfigError::Pair { left, defect } => {
            &&& s.len() > 0
            &&& s[0].lower == 0
            &&& 0 <= left < s.len() - 1
            &&& !joined_at(s, left as int)
            &&& defect == pair_defect(s[left as int], s[left + 1])
            &&& forall|j: int| 0 <= j < left ==> #[trigger] joined_at(s, j)
        },
        ConfigError::LastBounded { upper } => {
            &&& s.len() > 0
            &&& s[0].lower == 0
            &&& forall|j: int| 0 <= j < s.len() - 1 ==> #[trigger] joined_at(s, j)
            &&& s[s.len() - 1].upper == Some(upper)
        },
    }
}

/// The index of the range of `s` that holds `width`.
pub open spec fn classify_index(s: Seq<BreakpointRange>, width: int) -> int {
    choose|i: int| 0 <= i < s.len() && contains(#[trigger] s[i], width)
}

/// No error reports on a valid sequence.
pub proof fn lemma_valid_has_no_report(s: Seq<BreakpointRange>, e: ConfigError)
    requires
        valid_ranges(s),
    ensures
        !reports(s, e),
{
    if let ConfigError::Pair { left, defect } = e {
        if 0 <= left < s.len() - 1 {
            assert(joined_at(s, left as int));
        }
    }
}

/// At most one error reports on a sequence.
pub proof fn lemma_report_is_unique(s: Seq<BreakpointRange>, e1: ConfigError, e2: ConfigError)
    requires
        reports(s, e1),
        reports(s, e2),
    ensures
        e1 == e2,
{
    match (e1, e2) {
        (ConfigError::Pair { left: l1, .. }, ConfigError::Pair { left: l2, .. }) => {
            if l1 < l2 {
                assert(joined_at(s, l1 as int));
            } else if l2 < l1 {
                assert(joined_at(s, l2 as int));
            }
        },
        (ConfigError::Pair { left, .. }, ConfigError::LastBounded { .. }) => {
            assert(joined_at(s, left as int));
        },
        (ConfigError::LastBounded { .. }, ConfigError::Pair { left, .. }) => {
            assert(joined_at(s, left as int));
        },
        _ => {},
    }
}

/// In a valid sequence every range ends no later than a later range starts,
/// and starts strictly before it.
pub proof fn lemma_ranges_ascend(s: Seq<BreakpointRange>, i: int, j: int)
    requires
        valid_ranges(s),
        0 <= i < j < s.len(),
    ensures
        s[i].upper is Some,
        s[i].upper->0 <= s[j].lower,
        s[i].lower < s[j].lower,
    decreases j - i,
{
    assert(joined_at(s, i));
    if i + 1 < j {
        lemma_ranges_ascend(s, i + 1, j);
    }
}

/// No width lies in two ranges of a valid sequence.
pub proof fn lemma_at_most_one_range(s: Seq<BreakpointRange>, width: int, i: int, j: int)
    requires
        valid_ranges(s),
        0 <= i < s.len(),
        0 <= j < s.len(),
        contains(s[i], width),
        contains(s[j], width),
    ensures
        i == j,
{
    if i < j {
        lemma_ranges_ascend(s, i, j);
    } else if j < i {
        lemma_ranges_ascend(s, j, i);
    }
}

/// Every width from zero upwards lies in some range at or after position
/// `from`, provided it is not below the start of that position.
proof fn lemma_covered_from(s: Seq<BreakpointRange>, width: int, from: int)
    requires
        valid_ranges(s),
        0 <= from < s.len(),
        s[from].lower <= width,
    ensures
        exists|i: int| from <= i < s.len() && contains(#[trigger] s[i], width),
    decreases s.len() - from,
{
    if contains(s[from], width) {
    } else {
        assert(from < s.len() - 1);
        assert(joined_at(s, from));
        lemma_covered_from(s, width, from + 1);
    }
}

/// Coverage and uniqueness: in a valid sequence every width from zero
/// upwards has its index, that index's range holds the width, and no other
/// range does.
pub proof fn lemma_classify_covers_uniquely(s: Seq<BreakpointRange>, width: int)
    requires
        valid_ranges(s),
        0 <= width,
    ensures
        0 <= classify_index(s, width) < s.len(),
        contains(s[classify_index(s, width)], width),
        forall|j: int|
            0 <= j < s.len() && contains(#[trigger] s[j], width) ==> j == classify_index(s, width),
{
    lemma_covered_from(s, width, 0);
    let c = classify_index(s, width);
    assert forall|j: int| 0 <= j < s.len() && contains(#[trigger] s[j], width) implies j == c by {
        lemma_at_most_one_range(s, width, j, c);
    }
}

/// A wider viewport never falls into a narrower breakpoint.
pub proof fn lemma_classify_is_monotone(s: Seq<BreakpointRange>, w1: int, w2: int)
    requires
        valid_ranges(s),
        0 <= w1 <= w2,
    ensures
        classify_index(s, w1) <= classify_index(s, w2),
{
    lemma_classify_covers_uniquely(s, w1);
    lemma_classify_covers_uniquely(s, w2);
    let i1 = classify_index(s, w1);
    let i2 = classify_index(s, w2);
    if i2 < i1 {
        lemma_ranges_ascend(s, i2, i1);
    }
}

/// Two widths with the lower bound of breakpoint `k` between them fall into
/// different breakpoints: the narrower one below `k`, the wider one into `k`
/// or above.
pub proof fn lemma_straddling_changes_breakpoint(
    s: Seq<BreakpointRange>,
    w1: int,
    w2: int,
    k: int,
)
    requires
        valid_ranges(s),
        0 <= k < s.len(),
        0 <= w1 < s[k].lower <= w2,
    ensures
        classify_index(s, w1) < k <= classify_index(s, w2),
{
    lemma_classify_covers_uniquely(s, w1);
    lemma_classify_covers_uniquely(s, w2);
    let i1 = classify_index(s, w1);
    let i2 = classify_index(s, w2);
    if k < i1 {
        lemma_ranges_ascend(s, k, i1);
    }
    if i2 < k {
        lemma_ranges_ascend(s, i2, k);
    }
}

/// A validated breakpoint table.
#[derive(Debug)]
pub struct BreakpointTable {
    ranges: Vec<BreakpointRange>,
}

impl View for BreakpointTable {
    type V = Seq<BreakpointRange>;

    closed spec fn view(&self) -> Seq<BreakpointRange> {
        self.ranges@
    }
}

impl BreakpointTable {
    #[verifier::type_invariant]
    spec fn well_formed(self) -> bool {
        valid_ranges(self.ranges@)
    }

    /// Validates `ranges` and makes a table of them, or says what is wrong
    /// with the leftmost place that is.
    pub fn new(ranges: Vec<BreakpointRange>) -> (r: Result<BreakpointTable, ConfigError>)
        ensures
            r is Ok <==> valid_ranges(ranges@),
            r matches Ok(table) ==> table@ == ranges@,
            r matches Err(e) ==> reports(ranges@, e),
    {
        let n = ranges.len();
        if n == 0 {
            return Err(ConfigError::Empty);
        }
        if ranges[0].lower != 0 {
            return Err(ConfigError::FirstNotZero { lower: ranges[0].lower });
        }
        let mut i: usize = 0;
        while i + 1 < n
            invariant
                n == ranges.len(),
                0 <= i < n,
                ranges@[0].lower == 0,
                forall|j: int| 0 <= j < i ==> #[trigger] joined_at(ranges@, j),
            decreases n - i,
        {
            let left = ranges[i];
            let right = ranges[i + 1];
            match left.upper {
                None => {
                    assert(!joined_at(ranges@, i as int));
                        return Err(ConfigError::Pair { left: i, defect: PairDefect::Unbounded });
                },
                Some(upper) => {
                    if upper < right.lower {
                        assert(!joined_at(ranges@, i as int));
                        return Err(ConfigError::Pair { left: i, defect: PairDefect::Gap });
                    } else if upper > right.lower {
                        assert(!joined_at(ranges@, i as int));
                        return Err(ConfigError::Pair { left: i, defect: PairDefect::Overlap });
                    } else if left.lower >= right.lower {
                        assert(!joined_at(ranges@, i as int));
                        return Err(ConfigError::Pair { left: i, defect: PairDefect::NotAscending });
                    }
                },
            }
            assert(joined_at(ranges@, i as int));
            i += 1;
        }
        match ranges[n - 1].upper {
            Some(upper) => Err(ConfigError::LastBounded { upper }),
            None => Ok(BreakpointTable { ranges }),
        }
    }

    /// The number of breakpoints, which is never zero.
    pub fn len(&self) -> (n: usize)
        ensures
            n == self@.len(),
            n > 0,
            valid_ranges(self@),
    {
        proof {
            use_type_invariant(self);
        }
        self.ranges.len()
    }

    /// The ranges of the table, narrowest first.
    pub fn ranges(&self) -> (r: &Vec<BreakpointRange>)
        ensures
            r@ == self@,
            valid_ranges(self@),
    {
        proof {
            use_type_invariant(self);
        }
        &self.ranges
    }

    /// The range at position `index`, if the table has that many.
    pub fn get(&self, index: usize) -> (r: Option<BreakpointRange>)
        ensures
            r == if index < self@.len() { Some(self@[index as int]) } else { None },
    {
        if index < self.ranges.len() {
            Some(self.ranges[index])
        } else {
            None
        }
    }

    /// The position of the first range called `name`, if there is one.
    pub fn index_of(&self, name: Breakpoint) -> (r: Option<usize>)
        ensures
            r == first_named(self@, name),
    {
        let n = self.ranges.len();
        let mut i: usize = 0;
        while i < n
            invariant
                n == self.ranges.len(),
                0 <= i <= n,
                forall|j: int| 0 <= j < i ==> (#[trigger] self.ranges@[j]).name != name,
            decreases n - i,
        {
            if self.ranges[i].name == name {
                proof {
                    lemma_first_named(self@, name, i as int);
                }
                return Some(i);
            }
            i += 1;
        }
        proof {
            lemma_none_named(self@, name);
        }
        None
    }
}

/// The position of the first range of `s` called `name`.
pub open spec fn first_named(s: Seq<BreakpointRange>, name: Breakpoint) -> Option<usize> {
    if exists|i: int| 0 <= i < s.len() && (#[trigger] s[i]).name == name {
        let first = choose|i: int|
            0 <= i < s.len() && (#[trigger] s[i]).name == name && forall|j: int|
                0 <= j < i ==> (#[trigger] s[j]).name != name;
        Some(first as usize)
    } else {
        None
    }
}

/// A position that carries `name`, with none before it that does, is the
/// first one named so.
pub proof fn lemma_first_named(s: Seq<BreakpointRange>, name: Breakpoint, i: int)
    requires
        0 <= i < s.len() <= usize::MAX,
        s[i].name == name,
        forall|j: int| 0 <= j < i ==> (#[trigger] s[j]).name != name,
    ensures
        first_named(s, name) == Some(i as usize),
{
    let first = choose|k: int|
        0 <= k < s.len() && (#[trigger] s[k]).name == name && forall|j: int|
            0 <= j < k ==> (#[trigger] s[j]).name != name;
    if first < i {
        assert(s[first].name != name);
    } else if i < first {
        assert(s[i].name != name);
    }
}

/// Where no position carries `name`, there is no first one.
pub proof fn lemma_none_named(s: Seq<BreakpointRange>, name: Breakpoint)
    requires
        forall|j: int| 0 <= j < s.len() ==> (#[trigger] s[j]).name != name,
    ensures
        first_named(s, name) is None,
{
}

/// Finds the breakpoint that holds `width`: the one index whose range starts
/// at or below it and ends above it. A negative width is refused.
pub fn classify(width: i64, table: &BreakpointTable) -> (r: Result<usize, InvalidInputError>)
    ensures
        valid_ranges(table@),
        width < 0 ==> r == Err::<usize, InvalidInputError>(InvalidInputError { width }),
        width >= 0 ==> r == Ok::<usize, InvalidInputError>(classify_index(table@, width as int) as usize),
        r matches Ok(index) ==> {
            &&& index < table@.len()
            &&& contains(table@[index as int], width as int)
            &&& forall|j: int|
                0 <= j < table@.len() && contains(#[trigger] table@[j], width as int) ==> j == index
        },
{
    proof {
        use_type_invariant(table);
    }
    if width < 0 {
        return Err(InvalidInputError { width });
    }
    let n = table.ranges.len();
    let mut i: usize = 0;
    loop
        invariant
            n == table.ranges.len(),
            valid_ranges(table.ranges@),
            0 <= i < n,
            0 <= width,
            table.ranges@[i as int].lower <= width,
        decreases n - i,
    {
        match table.ranges[i].upper {
            None => {
                proof {
                    assert(contains(table@[i as int], width as int));
                    lemma_classify_covers_uniquely(table@, width as int);
                }
                return Ok(i);
            },
            Some(upper) => {
                if width < upper as i64 {
                    proof {
                        assert(contains(table@[i as int], width as int));
                        lemma_classify_covers_uniquely(table@, width as int);
                    }
                    return Ok(i);
                }
                assert(joined_at(table.ranges@, i as int));
            },
        }
        i += 1;
    }
}

} // verus!
