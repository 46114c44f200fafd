//! Estimating progress and the time that is left.
//!
//! The estimator is told, at each tick of a timer, how many samples have been
//! processed so far and how much time has passed since the tick before. From
//! that it derives how fast the work goes compared with the recording itself,
//! averaged over the last ticks, and how long the rest will take.
//!
//! Times are in milliseconds, speed factors in thousandths, percentages in
//! hundredths of a percent.

use crate::fixed_vec_deque::FixedVecDeque;
use vstd::prelude::*;

verus! {

/// The time between two ticks, in milliseconds.
pub const PROGRESS_INTERVAL: u64 = 5000;

/// The number of ticks that the average speed is taken over: the last five
/// minutes.
pub const ETA_CALC_WINDOW: usize = 60;

/// The speed factor of work that keeps pace with the recording.
pub const REAL_TIME: u64 = 1000;

/// All of the work, in hundredths of a percent.
pub const COMPLETE: u64 = 10000;

/// What the estimator reports at a tick.
#[derive(Clone, Copy, Debug, PartialEq, Eq, Structural)]
pub struct ProgressReport {
    /// How much of the recording is processed, in hundredths of a percent;
    /// `None` where the length of the recording is not known.
    pub percent: Option<u64>,
    /// How much of the recording is processed, in milliseconds.
    pub processed: u64,
    /// How fast the work went since the last tick, in thousandths.
    pub speed_factor: u64,
    /// How fast the work went over the last ticks, in thousandths.
    pub average_speed_factor: u64,
    /// How long the rest will take at that speed, in milliseconds; `None`
    /// where the length of the recording is not known or the work stands
    /// still.
    pub remaining: Option<u64>,
}

/// The mathematical value of a [`ProgressEstimator`].
pub struct EstimatorView {
    /// The speed factors of the last ticks, the oldest first.
    pub window: Seq<u64>,
    /// The number of ticks that the window holds at most.
    pub max_len: nat,
    /// The number of samples processed at the last tick.
    pub last_samples: nat,
    /// The number of samples in one second of the recording.
    pub sample_rate: nat,
    /// The length of the recording in milliseconds, if it is known.
    pub total_duration: Option<u64>,
}

/// The smaller of two numbers.
pub open spec fn at_most(value: nat, limit: nat) -> nat {
    if value <= limit {
        value
    } else {
        limit
    }
}

/// The length of `samples` samples in milliseconds, rounded down and no more
/// than 64 bits hold.
pub open spec fn millis_of_samples(samples: nat, sample_rate: nat) -> nat {
    at_most(samples * 1000 / sample_rate, u64::MAX as nat)
}

/// How fast `processed` milliseconds of recording were done in `elapsed`
/// milliseconds, in thousandths and no more than 64 bits hold.
pub open spec fn speed_factor_of(processed: nat, elapsed: nat) -> nat {
    at_most(processed * 1000 / elapsed, u64::MAX as nat)
}

/// How much `processed` is of `total`, in hundredths of a percent and no more
/// than all of it. Of a recording without length, anything is all and nothing
/// is nothing.
pub open spec fn percent_of(processed: nat, total: nat) -> nat {
    if total == 0 {
        if processed == 0 {
            0
        } else {
            COMPLETE as nat
        }
    } else {
        at_most(processed * 10000 / total, COMPLETE as nat)
    }
}

/// The sum of the numbers.
pub open spec fn sum_of(values: Seq<u64>) -> nat
    decreases values.len(),
{
    if values.len() == 0 {
        0
    } else {
        sum_of(values.drop_last()) + values.last() as nat
    }
}

/// The mean of the numbers, rounded down; zero where there are none.
pub open spec fn average_of(values: Seq<u64>) -> nat {
    if values.len() == 0 {
        0
    } else {
        sum_of(values) / values.len()
    }
}

/// The window after a tick: the new speed factor comes last, and the oldest
/// goes where the window was full.
pub open spec fn window_after(window: Seq<u64>, max_len: nat, speed: u64) -> Seq<u64> {
    if window.len() == max_len && window.len() > 0 {
        window.drop_first().push(speed)
    } else {
        window.push(speed)
    }
}

/// How long `rest` milliseconds of recording take at a speed of `speed`
/// thousandths, in milliseconds and no more than 64 bits hold; `None` at a
/// standstill.
pub open spec fn time_left(rest: nat, speed: nat) -> Option<u64> {
    if speed == 0 {
        None
    } else {
        Some(at_most(rest * 1000 / speed, u64::MAX as nat) as u64)
    }
}

/// Whether the estimator can take a tick with these readings: some time has
/// passed, and the sample counter has not gone back.
pub open spec fn tick_is_sound(state: EstimatorView, current_samples: nat, elapsed: nat) -> bool {
    elapsed > 0 && current_samples >= state.last_samples
}

/// The speed factor that a tick with these readings measures.
pub open spec fn measured_speed(state: EstimatorView, current_samples: nat, elapsed: nat) -> u64 {
    speed_factor_of(
        millis_of_samples((current_samples - state.last_samples) as nat, state.sample_rate),
        elapsed,
    ) as u64
}

/// The estimator after a sound tick.
pub open spec fn ticked(state: EstimatorView, current_samples: nat, elapsed: nat) -> EstimatorView {
    EstimatorView {
        window: window_after(
            state.window,
            state.max_len,
            measured_speed(state, current_samples, elapsed),
        ),
        max_len: state.max_len,
        last_samples: current_samples,
        sample_rate: state.sample_rate,
        total_duration: state.total_duration,
    }
}

/// What the estimator reports after a sound tick.
pub open spec fn report_of(state: EstimatorView, current_samples: nat, elapsed: nat)
    -> ProgressReport {
    let after = ticked(state, current_samples, elapsed);
    let processed = millis_of_samples(current_samples, state.sample_rate);
    let average = average_of(after.window);
    ProgressReport {
        percent: match state.total_duration {
            Some(total) => Some(percent_of(processed, total as nat) as u64),
            None => None,
        },
        processed: processed as u64,
        speed_factor: measured_speed(state, current_samples, elapsed),
        average_speed_factor: average as u64,
        remaining: match state.total_duration {
            Some(total) => time_left(
                if total >= processed {
                    (total - processed) as nat
                } else {
                    0
                },
                average,
            ),
            None => None,
        },
    }
}

/// What holds of every estimator: the window has room for a tick and is not
/// over-full, and a second of the recording has samples.
pub open spec fn estimator_wf(state: EstimatorView) -> bool {
    &&& state.max_len > 0
    &&& state.window.len() <= state.max_len
    &&& state.sample_rate > 0
}

/// The sum of numbers is at most their count times the largest that 64 bits
/// hold.
pub proof fn lemma_sum_bound(values: Seq<u64>)
    ensures
        sum_of(values) <= values.len() * u64::MAX,
    decreases values.len(),
{
    if values.len() > 0 {
        lemma_sum_bound(values.drop_last());
        let count = values.len() as int;
        assert((count - 1) * u64::MAX + u64::MAX == count * u64::MAX) by (nonlinear_arith);
    }
}

/// The mean of numbers that are all the same is that number.
pub proof fn lemma_average_of_equal(values: Seq<u64>, value: u64)
    requires
        values.len() > 0,
        forall|i: int| 0 <= i < values.len() ==> values[i] == value,
    ensures
        sum_of(values) == values.len() * value,
        average_of(values) == value,
    decreases values.len(),
{
    if values.len() > 1 {
        lemma_average_of_equal(values.drop_last(), value);
    } else {
        assert(sum_of(values.drop_last()) == 0);
    }
    let count = values.len() as int;
    let each = value as int;
    assert((count - 1) * each + each == count * each) by (nonlinear_arith);
    assert((count * each) / count == each) by (nonlinear_arith)
        requires
            count > 0,
    ;
}

/// The estimator after a run of ticks, each given by the number of samples
/// processed so far and the milliseconds since the tick before.
pub open spec fn ticked_through(state: EstimatorView, readings: Seq<(nat, nat)>) -> EstimatorView
    decreases readings.len(),
{
    if readings.len() == 0 {
        state
    } else {
        ticked(
            ticked_through(state, readings.drop_last()),
            readings.last().0,
            readings.last().1,
        )
    }
}

/// Whether a tick with these readings is sound and finds that the work has
/// kept pace with the recording: the samples that came in since the tick
/// before are those of exactly the time that has passed, a time that 64 bits
/// hold.
pub open spec fn keeps_pace(state: EstimatorView, current_samples: nat, elapsed: nat) -> bool {
    &&& tick_is_sound(state, current_samples, elapsed)
    &&& elapsed <= u64::MAX
    &&& (current_samples - state.last_samples) * 1000 == elapsed * state.sample_rate
}

/// Whether every tick of a run finds that the work has kept pace with the
/// recording.
pub open spec fn keeps_pace_through(state: EstimatorView, readings: Seq<(nat, nat)>) -> bool
    decreases readings.len(),
{
    readings.len() > 0 ==> keeps_pace_through(state, readings.drop_last()) && keeps_pace(
        ticked_through(state, readings.drop_last()),
        readings.last().0,
        readings.last().1,
    )
}

/// Work that keeps pace with the recording is measured as real time.
pub proof fn lemma_real_time_speed(state: EstimatorView, current_samples: nat, elapsed: nat)
    requires
        estimator_wf(state),
        keeps_pace(state, current_samples, elapsed),
    ensures
        measured_speed(state, current_samples, elapsed) == REAL_TIME,
        report_of(state, current_samples, elapsed).speed_factor == REAL_TIME,
{
    let delta = (current_samples - state.last_samples) as int;
    let rate = state.sample_rate as int;
    let passed = elapsed as int;
    assert(delta * 1000 / rate == passed) by (nonlinear_arith)
        requires
            delta * 1000 == passed * rate,
            rate > 0,
    ;
    assert(passed * 1000 / passed == 1000) by (nonlinear_arith)
        requires
            passed > 0,
    ;
}

/// While the work keeps pace with the recording, every tick puts the speed
/// factor of real time into the window: after `n` such ticks the last `n`
/// entries of the window, or all of them where it holds fewer, are that
/// factor.
pub proof fn lemma_window_fills_with_real_time(state: EstimatorView, readings: Seq<(nat, nat)>)
    requires
        estimator_wf(state),
        keeps_pace_through(state, readings),
    ensures
        estimator_wf(ticked_through(state, readings)),
        ticked_through(state, readings).max_len == state.max_len,
        ticked_through(state, readings).window.len() == at_most(
            state.window.len() + readings.len(),
            state.max_len,
        ),
        forall|i: int|
            0 <= i < ticked_through(state, readings).window.len() && i >= ticked_through(
                state,
                readings,
            ).window.len() - readings.len() ==> ticked_through(state, readings).window[i]
                == REAL_TIME,
    decreases readings.len(),
{
    if readings.len() > 0 {
        lemma_window_fills_with_real_time(state, readings.drop_last());
        lemma_real_time_speed(
            ticked_through(state, readings.drop_last()),
            readings.last().0,
            readings.last().1,
        );
    }
}

/// Once the work has kept pace with the recording for as many ticks as the
/// window holds, the average speed factor is that of real time, whatever the
/// window held before; and it stays there while the work keeps pace.
pub proof fn lemma_average_converges(state: EstimatorView, readings: Seq<(nat, nat)>)
    requires
        estimator_wf(state),
        keeps_pace_through(state, readings),
        readings.len() >= state.max_len,
    ensures
        average_of(ticked_through(state, readings).window) == REAL_TIME,
        report_of(
            ticked_through(state, readings.drop_last()),
            readings.last().0,
            readings.last().1,
        ).average_speed_factor == REAL_TIME,
{
    lemma_window_fills_with_real_time(state, readings);
    lemma_average_of_equal(ticked_through(state, readings).window, REAL_TIME);
}

fn capped(value: u128) -> (r: u64)
    ensures
        r == at_most(value as nat, u64::MAX as nat),
{
    if value > u64::MAX as u128 {
        u64::MAX
    } else {
        value as u64
    }
}

/// The length of `samples` samples in milliseconds.
pub fn samples_to_millis(samples: u64, sample_rate: u32) -> (millis: u64)
    requires
        sample_rate > 0,
    ensures
        millis == millis_of_samples(samples as nat, sample_rate as nat),
{
    capped((samples as u128) * 1000 / (sample_rate as u128))
}

/// The mean of the speed factors in the window, rounded down.
fn window_average(window: &FixedVecDeque<u64>) -> (average: u64)
    ensures
        average == average_of(window@),
{
    let len = window.len();
    if len == 0 {
        return 0;
    }
    let mut sum: u128 = 0;
    let mut i: usize = 0;
    while i < len
        invariant
            i <= len,
            len == window@.len(),
            sum == sum_of(window@.take(i as int)),
        decreases len - i,
    {
        proof {
            lemma_sum_bound(window@.take(i as int));
            assert(window@.take(i + 1).drop_last() =~= window@.take(i as int));
            assert(i * u64::MAX + u64::MAX <= usize::MAX * u64::MAX) by (nonlinear_arith)
                requires
                    i < usize::MAX,
            ;
        }
        match window.get(i) {
            Some(speed) => {
                sum = sum + (*speed as u128);
            },
            None => {},
        }
        i += 1;
    }
    proof {
        assert(window@.take(len as int) =~= window@);
        lemma_sum_bound(window@);
        let total = sum as int;
        let count = len as int;
        assert(total / count <= u64::MAX) by (nonlinear_arith)
            requires
                0 <= total <= count * u64::MAX,
                count > 0,
        ;
    }
    (sum / (len as u128)) as u64
}

/// Tracks how fast the work goes and how much of it is left.
pub struct ProgressEstimator {
    speed_factors: FixedVecDeque<u64>,
    last_samples: u64,
    sample_rate: u32,
    total_duration: Option<u64>,
}

impl View for ProgressEstimator {
    type V = EstimatorView;

    closed spec fn view(&self) -> EstimatorView {
        EstimatorView {
            window: self.speed_factors@,
            max_len: self.speed_factors.spec_max_len(),
            last_samples: self.last_samples as nat,
            sample_rate: self.sample_rate as nat,
            total_duration: self.total_duration,
        }
    }
}

impl ProgressEstimator {
    #[verifier::type_invariant]
    spec fn inv(self) -> bool {
        estimator_wf(self@)
    }

    /// An estimator for a recording with `sample_rate` samples a second and,
    /// if it is known, a length of `total_duration` milliseconds, that
    /// averages the speed over the last `window` ticks.
    ///
    /// There is no estimator for a sample rate of zero or a window of no
    /// ticks.
    pub fn new(sample_rate: u32, total_duration: Option<u64>, window: usize) -> (estimator: Option<
        Self,
    >)
        ensures
            match estimator {
                Some(e) => sample_rate > 0 && window > 0 && e@ == (EstimatorView {
                    window: Seq::empty(),
                    max_len: window as nat,
                    last_samples: 0,
                    sample_rate: sample_rate as nat,
                    total_duration,
                }),
                None => sample_rate == 0 || window == 0,
            },
    {
        if sample_rate == 0 || window == 0 {
            return None;
        }
        Some(
            ProgressEstimator {
                speed_factors: FixedVecDeque::with_max_len(window),
                last_samples: 0,
                sample_rate,
                total_duration,
            },
        )
    }

    /// Takes the readings of a tick: the number of samples processed so far,
    /// and the milliseconds that have passed since the tick before.
    ///
    /// Returns the report for this tick. Where no time has passed or the
    /// sample counter has gone back, there is nothing to measure: the
    /// estimator stays as it was and reports nothing.
    pub fn tick(&mut self, current_samples: u64, elapsed: u64) -> (report: Option<ProgressReport>)
        ensures
            estimator_wf(old(self)@),
            estimator_wf(final(self)@),
            tick_is_sound(old(self)@, current_samples as nat, elapsed as nat) ==> final(self)@
                == ticked(old(self)@, current_samples as nat, elapsed as nat) && report == Some(
                report_of(old(self)@, current_samples as nat, elapsed as nat),
            ),
            !tick_is_sound(old(self)@, current_samples as nat, elapsed as nat) ==> final(self)@
                == old(self)@ && report is None,
    {
        proof {
            use_type_invariant(&*self);
        }
        if elapsed == 0 || current_samples < self.last_samples {
            return None;
        }
        let processed = samples_to_millis(current_samples, self.sample_rate);
        let delta = samples_to_millis(current_samples - self.last_samples, self.sample_rate);
        let speed_factor = capped((delta as u128) * 1000 / (elapsed as u128));

        let mut window: FixedVecDeque<u64> = FixedVecDeque::with_max_len(
            self.speed_factors.max_len(),
        );
        core::mem::swap(&mut self.speed_factors, &mut window);
        window.push_back(speed_factor);
        core::mem::swap(&mut self.speed_factors, &mut window);
        self.last_samples = current_samples;

        let average = window_average(&self.speed_factors);
        let report = ProgressReport {
            percent: match self.total_duration {
                Some(total) => Some(
                    if total == 0 {
                        if processed == 0 {
                            0
                        } else {
                            COMPLETE
                        }
                    } else {
                        capped((processed as u128) * 10000 / (total as u128)).min(COMPLETE)
                    },
                ),
                None => None,
            },
            processed,
            speed_factor,
            average_speed_factor: average,
            remaining: match self.total_duration {
                Some(total) => {
                    let rest: u64 = if total >= processed {
                        total - processed
                    } else {
                        0
                    };
                    if average == 0 {
                        None
                    } else {
                        Some(capped((rest as u128) * 1000 / (average as u128)))
                    }
                },
                None => None,
            },
        };
        Some(report)
    }
}

} // verus!
