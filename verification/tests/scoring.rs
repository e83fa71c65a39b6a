use dandelion_system::WorkoutData;
use dandelion_system::experience::ExperienceValue;
use dandelion_system::experience::compute_experience;
use dandelion_system::level::InputDomainError;
use dandelion_system::level::resolve_level;

fn workout(situps: i64, pushups_hundredths: i64, run_distance_hundredths: i64) -> WorkoutData {
    WorkoutData { situps, pushups_hundredths, run_distance_hundredths }
}

#[test]
fn zero_workout_scores_zero() {
    assert_eq!(compute_experience(&workout(0, 0, 0)).hundredths, 0);
}

#[test]
fn one_situp_scores_exactly_55() {
    // 1 * 50 * 1.1 = 55.00
    assert_eq!(compute_experience(&workout(1, 0, 0)).hundredths, 5500);
}

#[test]
fn one_pushup_scores_floor_of_bias_ten() {
    // 1 * 50 * 1.1^10 = 129.687123005, floor-rounded to 129.68
    assert_eq!(compute_experience(&workout(0, 100, 0)).hundredths, 12968);
}

#[test]
fn one_mile_scores_floor_of_bias_fifty() {
    // 1 * 50 * 1.1^50 = 5869.5426..., floor-rounded to 5869.54
    assert_eq!(compute_experience(&workout(0, 0, 100)).hundredths, 586954);
}

#[test]
fn negative_metrics_floor_toward_negative_infinity() {
    assert_eq!(compute_experience(&workout(0, -100, 0)).hundredths, -12969);
    assert_eq!(compute_experience(&workout(0, 0, -100)).hundredths, -586955);
    assert_eq!(compute_experience(&workout(-1, 0, 0)).hundredths, -5500);
}

#[test]
fn example_workout_scores_exactly() {
    // 20 situps, 10 pushups, 1 mile: 1100 + 1296.87... + 5869.54... = 8266.41...
    let exp = compute_experience(&workout(20, 1000, 100));
    assert_eq!(exp.hundredths, 826641);
}

#[test]
fn experience_monotone_in_each_field() {
    let base = compute_experience(&workout(10, 1000, 500)).hundredths;
    assert!(compute_experience(&workout(11, 1000, 500)).hundredths >= base);
    assert!(compute_experience(&workout(10, 1001, 500)).hundredths >= base);
    assert!(compute_experience(&workout(10, 1000, 501)).hundredths >= base);
}

#[test]
fn score_times_100_is_integral_by_representation() {
    // The score is held exactly in hundredths, so one hundred times the
    // rounded score is the integer the library returns.
    let exp = compute_experience(&workout(3, 77, 13));
    let whole = exp.hundredths / 100;
    let cents = exp.hundredths % 100;
    assert_eq!(whole * 100 + cents, exp.hundredths);
}

#[test]
fn zero_experience_is_level_zero() {
    let lr = resolve_level(ExperienceValue { hundredths: 0 }).unwrap();
    assert_eq!(lr.level, 0);
    // band 0 -> 1 is 750.00 wide
    assert_eq!(lr.remaining_hundredths, 75000);
}

#[test]
fn level_one_threshold_is_750() {
    // 750 experience: 750/1000 + 1 = 1.75 exactly, so level 1.
    let lr = resolve_level(ExperienceValue { hundredths: 75000 }).unwrap();
    assert_eq!(lr.level, 1);
    // band 1 -> 2 is 750 * 1.75 = 1312.50 wide
    assert_eq!(lr.remaining_hundredths, 131250);
    // just below the threshold it is still level 0
    let below = resolve_level(ExperienceValue { hundredths: 74999 }).unwrap();
    assert_eq!(below.level, 0);
}

#[test]
fn example_workout_resolves_level_three() {
    let lr = resolve_level(ExperienceValue { hundredths: 826641 }).unwrap();
    assert_eq!(lr.level, 3);
    // band 3 -> 4 is 750 * 1.75^3 = 4019.53125, floor-rounded to 4019.53
    assert_eq!(lr.remaining_hundredths, 401953);
}

#[test]
fn negative_experience_gives_negative_levels() {
    let lr = resolve_level(ExperienceValue { hundredths: -50000 }).unwrap();
    assert_eq!(lr.level, -2);
    assert_eq!(lr.remaining_hundredths, 24489);
    let deep = resolve_level(ExperienceValue { hundredths: -99999 }).unwrap();
    assert_eq!(deep.level, -21);
    assert_eq!(deep.remaining_hundredths, 0);
}

#[test]
fn experience_at_or_below_minus_1000_is_rejected() {
    assert_eq!(
        resolve_level(ExperienceValue { hundredths: -100000 }),
        Err(InputDomainError {}),
    );
    assert_eq!(
        resolve_level(ExperienceValue { hundredths: i64::MIN }),
        Err(InputDomainError {}),
    );
    assert!(resolve_level(ExperienceValue { hundredths: -99999 }).is_ok());
}

#[test]
fn largest_scores_still_resolve() {
    let lr = resolve_level(ExperienceValue { hundredths: i64::MAX }).unwrap();
    assert_eq!(lr.level, 57);
    assert_eq!(lr.remaining_hundredths, 5348475841846371566);
}
