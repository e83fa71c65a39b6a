use dandelion_system::EvalError;
use dandelion_system::WorkoutData;
use dandelion_system::evaluate;
use dandelion_system::level::InputDomainError;
use dandelion_system::rank::RankLookupError;
use dandelion_system::rank::RankTable;
use dandelion_system::rank::classify_rank;
use dandelion_system::rank::decimal_magnitude;
use dandelion_system::rank::get_first_significant_figure;

#[test]
fn ranks_below_ten_are_e() {
    let t = RankTable::standard();
    assert_eq!(classify_rank(0, &t), Ok('E'));
    assert_eq!(classify_rank(9, &t), Ok('E'));
    assert_eq!(classify_rank(-5, &t), Ok('E'));
}

#[test]
fn ranks_between_ten_and_fifty_follow_the_tens_digit() {
    let t = RankTable::standard();
    assert_eq!(classify_rank(19, &t), classify_rank(12, &t));
    assert_eq!(classify_rank(19, &t), Ok('D'));
    assert_eq!(classify_rank(23, &t), Ok('C'));
    assert_eq!(classify_rank(31, &t), Ok('B'));
    assert_eq!(classify_rank(47, &t), Ok('A'));
}

#[test]
fn ranks_from_fifty_to_hundred_are_s_then_n() {
    let t = RankTable::standard();
    assert_eq!(classify_rank(55, &t), Ok('S'));
    assert_eq!(classify_rank(99, &t), Ok('S'));
    assert_eq!(classify_rank(150, &t), Ok('N'));
}

#[test]
fn tier_boundaries_do_not_leak() {
    let t = RankTable::standard();
    assert_eq!(classify_rank(9, &t), Ok('E'));
    assert_eq!(classify_rank(10, &t), Ok('D'));
    assert_eq!(classify_rank(49, &t), Ok('A'));
    assert_eq!(classify_rank(50, &t), Ok('S'));
    assert_eq!(classify_rank(99, &t), Ok('S'));
    assert_eq!(classify_rank(100, &t), Ok('N'));
}

#[test]
fn leading_digit_helpers() {
    assert_eq!(get_first_significant_figure(23), 2);
    assert_eq!(get_first_significant_figure(47), 4);
    assert_eq!(get_first_significant_figure(9), 9);
    assert_eq!(get_first_significant_figure(305), 3);
    assert_eq!(decimal_magnitude(23), 10);
    assert_eq!(decimal_magnitude(7), 1);
    assert_eq!(decimal_magnitude(305), 100);
}

#[test]
fn missing_bucket_is_reported_not_fatal() {
    let empty = RankTable { entries: Vec::new() };
    assert_eq!(classify_rank(23, &empty), Err(RankLookupError { bucket: 20 }));
    let partial = RankTable { entries: vec![(0, 'E')] };
    assert_eq!(classify_rank(3, &partial), Ok('E'));
    assert_eq!(classify_rank(55, &partial), Err(RankLookupError { bucket: 50 }));
}

#[test]
fn example_workout_evaluates_end_to_end() {
    let t = RankTable::standard();
    let data = WorkoutData { situps: 20, pushups_hundredths: 1000, run_distance_hundredths: 100 };
    let ev = evaluate(&data, &t).unwrap();
    assert_eq!(ev.experience.hundredths, 826641);
    assert_eq!(ev.level, 3);
    assert_eq!(ev.remaining_hundredths, 401953);
    assert_eq!(ev.rank, 'E');
}

#[test]
fn evaluate_reports_domain_error_for_deeply_negative_workouts() {
    let t = RankTable::standard();
    let data = WorkoutData { situps: -1000, pushups_hundredths: 0, run_distance_hundredths: 0 };
    assert_eq!(
        evaluate(&data, &t),
        Err(EvalError::InputDomain(InputDomainError {})),
    );
}

#[test]
fn evaluate_reports_missing_bucket() {
    let empty = RankTable { entries: Vec::new() };
    let data = WorkoutData { situps: 0, pushups_hundredths: 0, run_distance_hundredths: 0 };
    assert_eq!(
        evaluate(&data, &empty),
        Err(EvalError::RankLookup(RankLookupError { bucket: 0 })),
    );
}
