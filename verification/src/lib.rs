use vstd::prelude::*;

pub mod arith;
pub mod experience;
pub mod level;
pub mod rank;

use crate::experience::ExperienceValue;
use crate::experience::compute_experience;
use crate::experience::exp_hundredths;
use crate::experience::workout_in_range;
use crate::level::InputDomainError;
use crate::level::band_width_hundredths;
use crate::level::reaches_level;
use crate::level::lemma_level_unique;
use crate::level::resolve_level;
use crate::rank::RankLookupError;
use crate::rank::RankTable;
use crate::rank::classify_rank;
use crate::rank::classify_spec;
use crate::rank::spec_lookup;

verus! {

/// A workout record: sit-up count, plus push-up count and running distance
/// held in hundredths of a unit (fixed-point with two decimal digits), so
/// fractional push-ups and distances are represented exactly. Negative
/// values are accepted and flow through the arithmetic unchecked.
#[derive(Clone, Copy, Debug, PartialEq, Eq, Structural)]
pub struct WorkoutData {
    pub situps: i64,
    pub pushups_hundredths: i64,
    pub run_distance_hundredths: i64,
}

/// Either failure a full evaluation can report: experience outside the
/// level inversion's domain, or a bucket missing from the rank table.
#[derive(Clone, Copy, Debug, PartialEq, Eq, Structural)]
pub enum EvalError {
    InputDomain(InputDomainError),
    RankLookup(RankLookupError),
}

/// The full outcome of one evaluation cycle: the experience score, the
/// progression level, the width of the level's band (hundredths), and the
/// single-letter rank.
#[derive(Clone, Copy, Debug, PartialEq, Eq, Structural)]
pub struct Evaluation {
    pub experience: ExperienceValue,
    pub level: i32,
    pub remaining_hundredths: i64,
    pub rank: char,
}

/// Runs one full evaluation cycle: score the workout, resolve the level
/// and its band width, and classify the rank against the given table.
/// Success is owed whenever the score is in the logarithm's domain and the
/// resolved level's bucket is in the table; a reported missing bucket is
/// that level's own bucket.
pub fn evaluate(data: &WorkoutData, table: &RankTable) -> (res: Result<Evaluation, EvalError>)
    requires
        workout_in_range(*data),
    ensures
        ({
            let eh = exp_hundredths(
                data.situps as int,
                data.pushups_hundredths as int,
                data.run_distance_hundredths as int,
            );
            &&& (res == Err::<Evaluation, EvalError>(
                EvalError::InputDomain(InputDomainError {}),
            ) <==> eh <= -100000)
            &&& (eh > -100000 ==> (forall|l: int|
                #[trigger] reaches_level(eh, l) && !reaches_level(eh, l + 1) ==> {
                    &&& (classify_spec(l, table.entries@) is Ok ==> res is Ok)
                    &&& (res matches Err(EvalError::RankLookup(er))
                        ==> Err::<char, RankLookupError>(er) == classify_spec(
                        l,
                        table.entries@,
                    ))
                }))
            &&& (res matches Err(EvalError::RankLookup(er)) ==> spec_lookup(
                table.entries@,
                er.bucket as int,
            ) is None)
            &&& (res matches Ok(ev) ==> {
                &&& ev.experience.hundredths == eh
                &&& reaches_level(eh, ev.level as int)
                &&& !reaches_level(eh, ev.level as int + 1)
                &&& ev.remaining_hundredths == band_width_hundredths(ev.level as int)
                &&& classify_spec(ev.level as int, table.entries@) == Ok::<
                    char,
                    RankLookupError,
                >(ev.rank)
            })
        }),
{
    let experience = compute_experience(data);
    match resolve_level(experience) {
        Err(e) => Err(EvalError::InputDomain(e)),
        Ok(lr) => {
            proof {
                crate::rank::lemma_bucket_bounds(lr.level as int);
            }
            let res: Result<Evaluation, EvalError> = match classify_rank(lr.level, table) {
                Ok(c) => Ok(
                    Evaluation {
                        experience,
                        level: lr.level,
                        remaining_hundredths: lr.remaining_hundredths,
                        rank: c,
                    },
                ),
                Err(e) => Err(EvalError::RankLookup(e)),
            };
            proof {
                let eh = exp_hundredths(
                    data.situps as int,
                    data.pushups_hundredths as int,
                    data.run_distance_hundredths as int,
                );
                assert forall|l: int|
                    #[trigger] reaches_level(eh, l) && !reaches_level(eh, l + 1) implies {
                    &&& (classify_spec(l, table.entries@) is Ok ==> res is Ok)
                    &&& (res matches Err(EvalError::RankLookup(er))
                        ==> Err::<char, RankLookupError>(er) == classify_spec(
                        l,
                        table.entries@,
                    ))
                } by {
                    lemma_level_unique(eh, l, lr.level as int);
                }
            }
            res
        },
    }
}

} // verus!
