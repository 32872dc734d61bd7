use seqpipe::enumerate::collect_pairs;
use seqpipe::enumerate::enumerate;
use seqpipe::funcs::FoldFn;
use seqpipe::funcs::MapFn;
use seqpipe::funcs::PredFn;
use seqpipe::pipeline::filter;
use seqpipe::pipeline::next;
use seqpipe::pipeline::range;
use seqpipe::pipeline::Sequence;
use seqpipe::reducers::collect;
use seqpipe::reducers::find;
use seqpipe::reducers::fold;

#[test]
fn range_collects_in_ascending_order() {
    let mut s = range(0, 5);
    assert_eq!(collect(&mut s), vec![0i64, 1, 2, 3, 4]);
}

#[test]
fn range_handles_negative_bounds() {
    let mut s = range(-3, 2);
    assert_eq!(collect(&mut s), vec![-3i64, -2, -1, 0, 1]);
}

#[test]
fn range_empty_when_start_equals_end() {
    let mut s = range(7, 7);
    assert_eq!(collect(&mut s), Vec::<i64>::new());
}

#[test]
fn range_empty_when_start_exceeds_end() {
    let mut s = range(5, 0);
    assert_eq!(collect(&mut s), Vec::<i64>::new());
}

#[test]
fn map_applies_elementwise() {
    let mut s = seqpipe::pipeline::map(range(0, 5), MapFn::AddConst(1));
    assert_eq!(collect(&mut s), vec![1i64, 2, 3, 4, 5]);
}

#[test]
fn map_subtracts_and_multiplies() {
    let mut s = seqpipe::pipeline::map(range(0, 3), MapFn::SubConst(2));
    assert_eq!(collect(&mut s), vec![-2i64, -1, 0]);
    let mut t = seqpipe::pipeline::map(range(0, 3), MapFn::MulConst(3));
    assert_eq!(collect(&mut t), vec![0i64, 3, 6]);
}

#[test]
fn map_wraps_on_overflow() {
    let inner = seqpipe::pipeline::map(range(i64::MAX - 1, i64::MAX), MapFn::AddConst(1));
    let mut s = seqpipe::pipeline::map(inner, MapFn::AddConst(1));
    assert_eq!(collect(&mut s), vec![i64::MIN]);
}

#[test]
fn filter_keeps_even_elements() {
    let mut s = filter(range(0, 6), PredFn::IsEven);
    assert_eq!(collect(&mut s), vec![0i64, 2, 4]);
}

#[test]
fn filter_keeps_odd_elements() {
    let mut s = filter(range(0, 6), PredFn::IsOdd);
    assert_eq!(collect(&mut s), vec![1i64, 3, 5]);
}

#[test]
fn filter_parity_on_negative_elements() {
    let mut s = filter(range(-4, 1), PredFn::IsEven);
    assert_eq!(collect(&mut s), vec![-4i64, -2, 0]);
    let mut t = filter(range(-4, 1), PredFn::IsOdd);
    assert_eq!(collect(&mut t), vec![-3i64, -1]);
}

#[test]
fn filter_by_comparisons() {
    let mut s = filter(range(0, 6), PredFn::GreaterThan(2));
    assert_eq!(collect(&mut s), vec![3i64, 4, 5]);
    let mut t = filter(range(0, 6), PredFn::LessThan(2));
    assert_eq!(collect(&mut t), vec![0i64, 1]);
}

#[test]
fn filtered_increments_keep_even_values() {
    let mut s = filter(
        seqpipe::pipeline::map(range(0, 5), MapFn::AddConst(1)),
        PredFn::IsEven,
    );
    assert_eq!(collect(&mut s), vec![2i64, 4]);
}

#[test]
fn enumerate_pairs_each_element_with_its_position() {
    let mut e = enumerate(range(10, 13));
    assert_eq!(collect_pairs(&mut e), vec![(0u64, 10i64), (1, 11), (2, 12)]);
}

#[test]
fn enumerate_counts_its_own_traversal() {
    let mut e = enumerate(filter(range(0, 5), PredFn::IsEven));
    assert_eq!(collect_pairs(&mut e), vec![(0u64, 0i64), (1, 2), (2, 4)]);
}

#[test]
fn enumerate_of_empty_is_empty() {
    let mut e = enumerate(range(3, 3));
    assert_eq!(collect_pairs(&mut e), Vec::<(u64, i64)>::new());
}

#[test]
fn fold_adds_up_a_range() {
    let mut s = range(0, 5);
    assert_eq!(fold(&mut s, 0, FoldFn::Add), 10);
}

#[test]
fn fold_of_empty_returns_init() {
    let mut s = range(3, 3);
    assert_eq!(fold(&mut s, 42, FoldFn::Add), 42);
}

#[test]
fn fold_multiplies_maximizes_minimizes() {
    let mut s = range(1, 5);
    assert_eq!(fold(&mut s, 1, FoldFn::Mul), 24);
    let mut t = range(0, 5);
    assert_eq!(fold(&mut t, i64::MIN, FoldFn::Max), 4);
    let mut u = range(0, 5);
    assert_eq!(fold(&mut u, i64::MAX, FoldFn::Min), 0);
}

#[test]
fn fold_add_wraps_on_overflow() {
    let mut s = seqpipe::pipeline::map(range(0, 1), MapFn::AddConst(i64::MAX));
    assert_eq!(fold(&mut s, 1, FoldFn::Add), i64::MIN);
}

#[test]
fn find_returns_zero_on_a_positive_range() {
    let mut s = range(0, 5);
    assert_eq!(find(&mut s, PredFn::IsEven), Some(0));
}

#[test]
fn find_is_absent_on_an_empty_range() {
    let mut s = range(0, 0);
    assert_eq!(find(&mut s, PredFn::IsEven), None);
}

#[test]
fn find_stops_at_the_first_match() {
    let mut s = range(0, 5);
    assert_eq!(find(&mut s, PredFn::IsOdd), Some(1));
    // the elements past the match were never demanded and are still there
    assert_eq!(collect(&mut s), vec![2i64, 3, 4]);
}

#[test]
fn find_consumes_everything_when_nothing_matches() {
    let mut s = range(0, 5);
    assert_eq!(find(&mut s, PredFn::GreaterThan(10)), None);
    assert_eq!(collect(&mut s), Vec::<i64>::new());
}

#[test]
fn collect_on_exhausted_sequence_yields_empty() {
    let mut s = range(0, 3);
    assert_eq!(collect(&mut s), vec![0i64, 1, 2]);
    assert_eq!(collect(&mut s), Vec::<i64>::new());
    assert_eq!(fold(&mut s, 5, FoldFn::Add), 5);
}

#[test]
fn next_yields_each_element_once_then_nothing() {
    let mut s = range(0, 2);
    assert_eq!(next(&mut s), Some(0));
    assert_eq!(next(&mut s), Some(1));
    assert_eq!(next(&mut s), None);
    assert_eq!(next(&mut s), None);
}

#[test]
fn next_demands_through_stages_lazily() {
    let mut s = filter(
        seqpipe::pipeline::map(range(0, 100), MapFn::MulConst(2)),
        PredFn::GreaterThan(5),
    );
    assert_eq!(next(&mut s), Some(6));
    assert_eq!(next(&mut s), Some(8));
}

#[test]
fn sequences_can_be_built_directly() {
    let mut s = Sequence::Range { cur: 2, end: 4 };
    assert_eq!(collect(&mut s), vec![2i64, 3]);
}
