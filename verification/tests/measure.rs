use std::collections::HashMap;

use with_daemon::cumulate::{cumulate, get_cumulated, has_totals};
use with_daemon::measure::{
    get_cur_ticks, Measurement, Sample, MEASURE_PERIOD, ROUNDS, UPDATE_INTERVAL,
};

fn sample(pid: i32, ppid: i32, ticks: u64, utime: u64, stime: u64) -> Sample {
    Sample { pid, ppid, ticks, utime, stime }
}

/// 1 has the children 2 and 3; 3 has the child 4; 9 stands alone.
fn family() -> HashMap<i32, Vec<i32>> {
    HashMap::from([(1, vec![2, 3]), (3, vec![4])])
}

#[test]
fn totals_of_a_family() {
    let values: HashMap<i32, u64> = HashMap::from([(1, 1), (2, 10), (3, 100), (4, 1000), (9, 5)]);
    let totals = get_cumulated(&family(), &values, 0);
    assert_eq!(
        totals,
        HashMap::from([(1, 1111), (2, 10), (3, 1100), (4, 1000), (9, 5)])
    );
}

#[test]
fn totals_of_floats() {
    let values: HashMap<i32, f32> = HashMap::from([(1, 0.5), (2, 0.25), (3, 0.125), (4, 1.0)]);
    let totals = get_cumulated(&family(), &values, std::iter::empty::<f32>().sum());
    assert_eq!(totals[&1], 1.875);
    assert_eq!(totals[&3], 1.125);
}

#[test]
fn total_is_the_sum_over_the_tree() {
    let values: HashMap<i32, u64> = HashMap::from([(1, 7), (2, 8), (3, 9), (4, 10)]);
    let totals = get_cumulated(&family(), &values, 0);
    assert_eq!(totals[&1], 7 + 8 + 9 + 10);
    assert_eq!(totals[&3], 9 + 10);
}

#[test]
fn total_is_own_value_plus_totals_of_children() {
    let values: HashMap<i32, u64> = HashMap::from([(1, 7), (2, 8), (3, 9), (4, 10)]);
    let totals = get_cumulated(&family(), &values, 0);
    assert_eq!(totals[&1], values[&1] + (totals[&2] + totals[&3]));
}

#[test]
fn no_value_no_total() {
    let totals = get_cumulated(&family(), &HashMap::<i32, u64>::new(), 0);
    assert!(totals.is_empty());
}

#[test]
fn cumulate_adds_what_lies_below() {
    let values: HashMap<i32, u64> = HashMap::from([(1, 1), (2, 10), (3, 100), (4, 1000)]);
    let mut totals = HashMap::new();
    cumulate(3, &family(), &values, 0, &mut totals);
    assert_eq!(totals, HashMap::from([(3, 1100), (4, 1000)]));
}

#[test]
fn cumulate_takes_known_totals_as_they_are() {
    let values: HashMap<i32, u64> = HashMap::from([(1, 1), (2, 10), (3, 100), (4, 1000)]);
    let mut totals = HashMap::from([(3, 5), (8, 6)]);
    cumulate(1, &family(), &values, 0, &mut totals);
    assert_eq!(totals, HashMap::from([(1, 16), (2, 10), (3, 5), (8, 6)]));
}

#[test]
fn cumulate_again_changes_nothing() {
    let values: HashMap<i32, u64> = HashMap::from([(1, 1), (2, 10), (3, 100), (4, 1000)]);
    let mut totals = HashMap::new();
    cumulate(1, &family(), &values, 0, &mut totals);
    let once = totals.clone();
    cumulate(1, &family(), &values, 0, &mut totals);
    assert_eq!(totals, once);
}

#[test]
fn totals_need_a_value_for_every_child() {
    let values: HashMap<i32, u64> = HashMap::from([(1, 1), (2, 10), (3, 100)]);
    assert!(!has_totals(&family(), &values, 0));
    let values: HashMap<i32, u64> = HashMap::from([(2, 10)]);
    assert!(has_totals(&family(), &values, 0));
}

#[test]
fn totals_need_that_no_process_is_its_own_descendant() {
    let values: HashMap<i32, u64> = HashMap::from([(1, 1), (2, 10)]);
    let ring = HashMap::from([(1, vec![2]), (2, vec![1])]);
    assert!(!has_totals(&ring, &values, 0));
    let own = HashMap::from([(1, vec![1])]);
    assert!(!has_totals(&own, &values, 0));
}

#[test]
fn family_has_totals() {
    let values: HashMap<i32, u64> = HashMap::from([(1, 1), (2, 10), (3, 100), (4, 1000)]);
    assert!(has_totals(&family(), &values, 0));
    assert!(has_totals(&family(), &HashMap::<i32, u64>::new(), 0));
}

#[test]
fn measuring_constants() {
    assert_eq!(ROUNDS, 2);
    assert_eq!(MEASURE_PERIOD, 100);
    assert_eq!(UPDATE_INTERVAL, 1000);
}

#[test]
fn ticks_are_an_average_over_processors() {
    assert_eq!(get_cur_ticks(10, 20, 31, 2), Some(30));
    assert_eq!(get_cur_ticks(0, 0, 0, 8), Some(0));
}

#[test]
fn ticks_need_a_processor_and_counters_that_fit() {
    assert_eq!(get_cur_ticks(1, 2, 3, 0), None);
    assert_eq!(get_cur_ticks(u64::MAX, 1, 0, 1), None);
    assert_eq!(get_cur_ticks(u64::MAX - 1, 1, 1, 1), None);
    assert_eq!(get_cur_ticks(u64::MAX - 1, 1, 0, 1), Some(u64::MAX));
}

#[test]
fn first_round_only_remembers() {
    let mut measurement = Measurement::new();
    assert!(!measurement.is_complete());
    let round = measurement
        .take_round(&vec![sample(1, 0, 100, 5, 5), sample(2, 1, 101, 1, 0)])
        .unwrap();
    assert!(!round.publishable());
    assert!(round.children.is_empty());
    assert!(round.spent.is_empty());
}

#[test]
fn second_round_tells_what_was_used() {
    let mut measurement = Measurement::new();
    measurement.take_round(&vec![sample(1, 0, 100, 5, 5), sample(2, 1, 101, 1, 0)]);
    let round = measurement
        .take_round(&vec![
            sample(1, 0, 110, 7, 6),
            sample(2, 1, 111, 1, 4),
            sample(3, 1, 111, 9, 9),
        ])
        .unwrap();
    assert!(measurement.is_complete());
    assert!(round.publishable());
    assert_eq!(round.children, HashMap::from([(0, vec![1]), (1, vec![2])]));
    assert_eq!(round.spent, HashMap::from([(1, (3, 10)), (2, (4, 10))]));
}

#[test]
fn loads_are_made_of_used_and_counted_ticks() {
    let mut measurement = Measurement::new();
    measurement.take_round(&vec![sample(1, 0, 100, 5, 5), sample(2, 1, 100, 1, 0)]);
    let round = measurement
        .take_round(&vec![sample(1, 0, 110, 10, 5), sample(2, 1, 108, 2, 1)])
        .unwrap();
    let loads = round.loads(|used: u64, passed: u64| used as f32 / passed as f32);
    assert_eq!(loads, HashMap::from([(1, 0.5), (2, 0.25)]));
    assert!(has_totals(&round.children, &loads, 0.0));
    let totals = get_cumulated(&round.children, &loads, std::iter::empty::<f32>().sum());
    assert_eq!(totals, HashMap::from([(1, 0.75), (2, 0.25)]));
}

#[test]
fn totals_of_a_round_are_published() {
    let mut measurement = Measurement::new();
    let first = measurement
        .take_round(&vec![sample(1, 0, 100, 5, 5), sample(2, 1, 100, 1, 0)])
        .unwrap();
    assert!(first.totals(|used: u64, _: u64| used, 0).is_none());
    let second = measurement
        .take_round(&vec![sample(1, 0, 110, 10, 5), sample(2, 1, 108, 2, 1)])
        .unwrap();
    assert_eq!(
        second.totals(|used: u64, passed: u64| 100 * used / passed, 0),
        Some(HashMap::from([(1, 75), (2, 25)]))
    );
    let load = |used: u64, passed: u64| used as f32 / passed as f32;
    assert_eq!(
        second.totals(load, std::iter::empty::<f32>().sum()),
        Some(HashMap::from([(1, 0.75), (2, 0.25)]))
    );
}

#[test]
fn round_with_a_ring_has_no_totals() {
    let ring = vec![sample(1, 2, 10, 0, 0), sample(2, 1, 10, 0, 0)];
    let mut measurement = Measurement::new();
    measurement.take_round(&ring);
    let round = measurement.take_round(&ring).unwrap();
    assert!(round.publishable());
    assert!(round.totals(|used: u64, _: u64| used, 0).is_none());
}

#[test]
fn order_of_summation_does_not_matter() {
    let values: HashMap<i32, u64> = HashMap::from([(1, 1), (2, 10), (3, 100), (4, 1000), (9, 5)]);
    let mut one = HashMap::new();
    cumulate(3, &family(), &values, 0, &mut one);
    cumulate(1, &family(), &values, 0, &mut one);
    let mut other = HashMap::new();
    cumulate(1, &family(), &values, 0, &mut other);
    cumulate(3, &family(), &values, 0, &mut other);
    assert_eq!(one, other);
}

#[test]
fn children_stand_in_the_order_in_which_they_were_seen() {
    let seen = vec![sample(5, 1, 10, 0, 0), sample(3, 1, 10, 0, 0), sample(4, 1, 10, 0, 0)];
    let mut measurement = Measurement::new();
    measurement.take_round(&seen);
    let round = measurement.take_round(&seen).unwrap();
    assert_eq!(round.children, HashMap::from([(1, vec![5, 3, 4])]));
    assert_eq!(round.spent[&3], (0, 0));
}

#[test]
fn every_child_is_measured() {
    let mut measurement = Measurement::new();
    measurement.take_round(&vec![sample(2, 1, 10, 0, 0), sample(3, 2, 10, 0, 0)]);
    let round = measurement
        .take_round(&vec![sample(2, 1, 20, 1, 0), sample(3, 2, 20, 1, 0), sample(4, 2, 20, 1, 0)])
        .unwrap();
    let mut children: Vec<i32> = round.children.values().flatten().copied().collect();
    let mut measured: Vec<i32> = round.spent.keys().copied().collect();
    children.sort();
    measured.sort();
    assert_eq!(children, vec![2, 3]);
    assert_eq!(measured, children);
}

#[test]
fn last_sample_of_a_process_counts() {
    let mut measurement = Measurement::new();
    measurement.take_round(&vec![sample(2, 1, 10, 0, 0), sample(2, 1, 20, 6, 0)]);
    let round = measurement.take_round(&vec![sample(2, 1, 30, 7, 1)]).unwrap();
    assert_eq!(round.spent[&2], (2, 10));
}

#[test]
fn counters_do_not_run_backwards() {
    let mut measurement = Measurement::new();
    measurement.take_round(&vec![sample(2, 1, 10, 5, 0)]);
    assert!(measurement.take_round(&vec![sample(2, 1, 20, 4, 0)]).is_none());

    let mut measurement = Measurement::new();
    measurement.take_round(&vec![sample(2, 1, 10, 5, 0)]);
    assert!(measurement.take_round(&vec![sample(2, 1, 9, 5, 0)]).is_none());
}

#[test]
fn counters_do_not_overflow() {
    let mut measurement = Measurement::new();
    assert!(measurement.take_round(&vec![sample(2, 1, 10, u64::MAX, 1)]).is_none());
}
