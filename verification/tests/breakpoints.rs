use responsive_engine::app_theme::Breakpoint;
use responsive_engine::breakpoint::{
    classify, BreakpointRange, BreakpointTable, ConfigError, InvalidInputError, PairDefect,
};
use responsive_engine::optimizer::{RenderSkipOptimizer, ResizeDecision};

fn range(name: Breakpoint, lower: u32, upper: Option<u32>) -> BreakpointRange {
    BreakpointRange { name, lower, upper }
}

fn three() -> BreakpointTable {
    BreakpointTable::new(vec![
        range(Breakpoint::ExtraSmall, 0, Some(600)),
        range(Breakpoint::Small, 600, Some(960)),
        range(Breakpoint::Medium, 960, None),
    ])
    .unwrap()
}

#[test]
fn classify_finds_the_range_that_holds_the_width() {
    let table = three();
    assert_eq!(classify(0, &table), Ok(0));
    assert_eq!(classify(500, &table), Ok(0));
    assert_eq!(classify(700, &table), Ok(1));
    assert_eq!(classify(800, &table), Ok(1));
    assert_eq!(classify(1000, &table), Ok(2));
}

#[test]
fn classify_takes_the_lower_bound_in_and_the_upper_bound_out() {
    let table = three();
    assert_eq!(classify(599, &table), Ok(0));
    assert_eq!(classify(600, &table), Ok(1));
    assert_eq!(classify(959, &table), Ok(1));
    assert_eq!(classify(960, &table), Ok(2));
}

#[test]
fn classify_puts_every_large_width_into_the_last_range() {
    let table = three();
    assert_eq!(classify(u32::MAX as i64, &table), Ok(2));
    assert_eq!(classify(u32::MAX as i64 + 1, &table), Ok(2));
    assert_eq!(classify(i64::MAX, &table), Ok(2));
}

#[test]
fn classify_refuses_a_negative_width() {
    let table = three();
    assert_eq!(classify(-1, &table), Err(InvalidInputError { width: -1 }));
    assert_eq!(classify(i64::MIN, &table), Err(InvalidInputError { width: i64::MIN }));
}

#[test]
fn every_width_has_exactly_one_range() {
    let table = three();
    let ranges = table.ranges().clone();
    for width in 0..2000i64 {
        let index = classify(width, &table).unwrap();
        let mut holding = 0;
        for (i, r) in ranges.iter().enumerate() {
            let inside =
                r.lower as i64 <= width && r.upper.map_or(true, |upper| width < upper as i64);
            if inside {
                holding += 1;
                assert_eq!(i, index);
            }
        }
        assert_eq!(holding, 1);
    }
}

#[test]
fn a_single_open_range_is_a_table() {
    let table = BreakpointTable::new(vec![range(Breakpoint::Medium, 0, None)]).unwrap();
    assert_eq!(table.len(), 1);
    assert_eq!(classify(0, &table), Ok(0));
    assert_eq!(classify(123_456, &table), Ok(0));
}

#[test]
fn an_empty_sequence_is_no_table() {
    assert_eq!(BreakpointTable::new(vec![]).err(), Some(ConfigError::Empty));
}

#[test]
fn a_table_starts_at_zero() {
    let r = BreakpointTable::new(vec![range(Breakpoint::Small, 10, None)]);
    assert_eq!(r.err(), Some(ConfigError::FirstNotZero { lower: 10 }));
}

#[test]
fn a_gap_is_reported_with_its_pair() {
    let r = BreakpointTable::new(vec![
        range(Breakpoint::ExtraSmall, 0, Some(600)),
        range(Breakpoint::Small, 600, Some(900)),
        range(Breakpoint::Medium, 960, None),
    ]);
    assert_eq!(r.err(), Some(ConfigError::Pair { left: 1, defect: PairDefect::Gap }));
}

#[test]
fn an_overlap_is_reported_with_its_pair() {
    let r = BreakpointTable::new(vec![
        range(Breakpoint::ExtraSmall, 0, Some(700)),
        range(Breakpoint::Small, 600, None),
    ]);
    assert_eq!(r.err(), Some(ConfigError::Pair { left: 0, defect: PairDefect::Overlap }));
}

#[test]
fn an_open_range_before_the_end_is_reported() {
    let r = BreakpointTable::new(vec![
        range(Breakpoint::ExtraSmall, 0, None),
        range(Breakpoint::Small, 600, None),
    ]);
    assert_eq!(r.err(), Some(ConfigError::Pair { left: 0, defect: PairDefect::Unbounded }));
}

#[test]
fn an_empty_range_is_reported() {
    let r = BreakpointTable::new(vec![
        range(Breakpoint::ExtraSmall, 0, Some(0)),
        range(Breakpoint::Small, 0, None),
    ]);
    assert_eq!(r.err(), Some(ConfigError::Pair { left: 0, defect: PairDefect::NotAscending }));
}

#[test]
fn the_leftmost_defect_is_the_one_reported() {
    let r = BreakpointTable::new(vec![
        range(Breakpoint::ExtraSmall, 0, Some(600)),
        range(Breakpoint::Small, 700, Some(900)),
        range(Breakpoint::Medium, 800, Some(1000)),
    ]);
    assert_eq!(r.err(), Some(ConfigError::Pair { left: 0, defect: PairDefect::Gap }));
}

#[test]
fn a_bounded_last_range_is_reported() {
    let r = BreakpointTable::new(vec![
        range(Breakpoint::ExtraSmall, 0, Some(600)),
        range(Breakpoint::Small, 600, Some(960)),
    ]);
    assert_eq!(r.err(), Some(ConfigError::LastBounded { upper: 960 }));
}

#[test]
fn a_table_gives_its_ranges_back() {
    let table = three();
    assert_eq!(table.len(), 3);
    assert_eq!(table.get(1), Some(range(Breakpoint::Small, 600, Some(960))));
    assert_eq!(table.get(3), None);
    assert_eq!(table.ranges().len(), 3);
}

#[test]
fn a_name_leads_to_the_first_range_that_carries_it() {
    let table = three();
    assert_eq!(table.index_of(Breakpoint::ExtraSmall), Some(0));
    assert_eq!(table.index_of(Breakpoint::Medium), Some(2));
    assert_eq!(table.index_of(Breakpoint::Large), None);
    let twice = BreakpointTable::new(vec![
        range(Breakpoint::Small, 0, Some(10)),
        range(Breakpoint::Small, 10, None),
    ])
    .unwrap();
    assert_eq!(twice.index_of(Breakpoint::Small), Some(0));
}

#[test]
fn resize_sequence_rerenders_only_on_crossings() {
    let table = three();
    let mut optimizer = RenderSkipOptimizer::new();
    assert_eq!(optimizer.last_index(), None);
    assert_eq!(
        optimizer.on_resize(500, &table),
        Ok(ResizeDecision { should_rerender: true, index: 0 })
    );
    assert_eq!(
        optimizer.on_resize(700, &table),
        Ok(ResizeDecision { should_rerender: true, index: 1 })
    );
    assert_eq!(
        optimizer.on_resize(800, &table),
        Ok(ResizeDecision { should_rerender: false, index: 1 })
    );
    assert_eq!(
        optimizer.on_resize(1000, &table),
        Ok(ResizeDecision { should_rerender: true, index: 2 })
    );
    assert_eq!(optimizer.last_index(), Some(2));
}

#[test]
fn widths_in_one_breakpoint_skip_the_second_render() {
    let table = three();
    for (w1, w2) in [(0, 599), (600, 601), (960, 5000), (10, 20)] {
        let mut optimizer = RenderSkipOptimizer::new();
        assert!(optimizer.on_resize(w1, &table).unwrap().should_rerender);
        assert!(!optimizer.on_resize(w2, &table).unwrap().should_rerender);
    }
}

#[test]
fn each_crossing_rerenders_once() {
    let table = three();
    let mut optimizer = RenderSkipOptimizer::new();
    let widths = [590, 595, 599, 600, 605, 700, 599, 598, 961, 962];
    let crossings = [true, false, false, true, false, false, true, false, true, false];
    for (width, expected) in widths.iter().zip(crossings.iter()) {
        assert_eq!(optimizer.on_resize(*width, &table).unwrap().should_rerender, *expected);
    }
}

#[test]
fn a_refused_resize_leaves_the_baseline() {
    let table = three();
    let mut optimizer = RenderSkipOptimizer::new();
    assert_eq!(optimizer.on_resize(-5, &table), Err(InvalidInputError { width: -5 }));
    assert_eq!(optimizer.last_index(), None);
    optimizer.on_resize(700, &table).unwrap();
    assert_eq!(optimizer.on_resize(-5, &table), Err(InvalidInputError { width: -5 }));
    assert_eq!(optimizer.last_index(), Some(1));
    assert!(!optimizer.on_resize(800, &table).unwrap().should_rerender);
}
