use vstd::prelude::*;
use rand::Rng;

verus! {

/// Brightness gained per tick while ramping up (about 0.01 of full light).
pub const FLICKER_UP_STEP: u64 = 655;
/// Brightness lost per tick while ramping down (about 0.015 of full light).
pub const FLICKER_DOWN_STEP: u64 = 983;
/// Range of the low threshold a torch starts with: 200/256 up to 240/256.
pub const FLICKER_LOW_MIN: u64 = 51200;
pub const FLICKER_LOW_MAX: u64 = 61440;
/// Range of the low threshold drawn on each ramp down: 220/256 up to 240/256.
pub const FLICKER_LOW_DRAW_MIN: u64 = 56320;
/// Range of the high threshold: 230/256 up to full light.
pub const FLICKER_HIGH_MIN: u64 = 58880;
pub const FLICKER_HIGH_MAX: u64 = 65536;
/// Range of a hold, in milliseconds.
pub const FLICKER_HOLD_MIN: u64 = 80;
pub const FLICKER_HOLD_MAX: u64 = 800;
/// Range of a pause, in milliseconds.
pub const FLICKER_PAUSE_MIN: u64 = 40;
pub const FLICKER_PAUSE_MAX: u64 = 140;
/// Bounds the intensity never leaves: a ramp stops one step past its threshold.
pub const FLICKER_FLOOR: u64 = 50217;
pub const FLICKER_CEIL: u64 = 66191;

/// The four phases of a torch's flicker cycle.
#[derive(PartialEq, Eq, Structural, Clone, Copy, Debug)]
pub enum FlickerPhase {
    RampUp,
    Hold,
    RampDown,
    Pause,
}

/// The flickering brightness that multiplies all static light. Intensities
/// are in units of `LIGHT_ONE`; times are in milliseconds.
#[derive(Clone, Copy, Debug)]
pub struct Torch {
    pub intensity: u64,
    pub flicker_r_low: u64,
    pub flicker_r_high: u64,
    pub flicker_r_hold: u64,
    pub flicker_r_pause: u64,
    pub state: FlickerPhase,
    pub timer: u64,
}

/// Relies on rand's `thread_rng().gen_range(lo..hi)`: a value in `lo..hi`.
/// It panics on an empty range, which `requires` rules out.
#[verifier::external_body]
fn random_in(lo: u64, hi: u64) -> (r: u64)
    requires
        lo < hi,
    ensures
        lo <= r < hi,
{
    rand::thread_rng().gen_range(lo..hi)
}

/// The range the next threshold or duration is drawn from in phase `p`: a
/// hold while ramping up, a low threshold while holding, a pause while
/// ramping down, a high threshold while pausing.
pub open spec fn draw_range_spec(p: FlickerPhase) -> (u64, u64) {
    match p {
        FlickerPhase::RampUp => (FLICKER_HOLD_MIN, FLICKER_HOLD_MAX),
        FlickerPhase::Hold => (FLICKER_LOW_DRAW_MIN, FLICKER_LOW_MAX),
        FlickerPhase::RampDown => (FLICKER_PAUSE_MIN, FLICKER_PAUSE_MAX),
        FlickerPhase::Pause => (FLICKER_HIGH_MIN, FLICKER_HIGH_MAX),
    }
}

/// The range of `draw_range_spec`.
pub fn draw_range(p: FlickerPhase) -> (r: (u64, u64))
    ensures
        r == draw_range_spec(p),
        r.0 < r.1,
{
    match p {
        FlickerPhase::RampUp => (FLICKER_HOLD_MIN, FLICKER_HOLD_MAX),
        FlickerPhase::Hold => (FLICKER_LOW_DRAW_MIN, FLICKER_LOW_MAX),
        FlickerPhase::RampDown => (FLICKER_PAUSE_MIN, FLICKER_PAUSE_MAX),
        FlickerPhase::Pause => (FLICKER_HIGH_MIN, FLICKER_HIGH_MAX),
    }
}

/// `now - since` has passed `span` (never, if `now` is before `since`).
pub open spec fn elapsed_past(now: u64, since: u64, span: u64) -> bool {
    now >= since && now - since > span
}

/// One tick of the flicker cycle at time `now`, with `draw` as the value
/// drawn for the threshold or duration that a change of phase sets.
pub open spec fn advanced(t: Torch, now: u64, draw: u64) -> Torch {
    match t.state {
        FlickerPhase::RampUp => if t.intensity > t.flicker_r_high {
            Torch { state: FlickerPhase::Hold, flicker_r_hold: draw, timer: now, ..t }
        } else {
            Torch { intensity: (t.intensity + FLICKER_UP_STEP) as u64, ..t }
        },
        FlickerPhase::Hold => if elapsed_past(now, t.timer, t.flicker_r_hold) {
            Torch { state: FlickerPhase::RampDown, flicker_r_low: draw, ..t }
        } else {
            t
        },
        FlickerPhase::RampDown => if t.intensity < t.flicker_r_low {
            Torch { state: FlickerPhase::Pause, flicker_r_pause: draw, timer: now, ..t }
        } else {
            Torch { intensity: (t.intensity - FLICKER_DOWN_STEP) as u64, ..t }
        },
        FlickerPhase::Pause => if elapsed_past(now, t.timer, t.flicker_r_pause) {
            Torch { state: FlickerPhase::RampUp, flicker_r_high: draw, ..t }
        } else {
            t
        },
    }
}

impl Torch {
    /// The thresholds lie in their ranges and the intensity within
    /// `FLICKER_FLOOR..=FLICKER_CEIL`.
    pub open spec fn wf(&self) -> bool {
        &&& FLICKER_LOW_MIN <= self.flicker_r_low < FLICKER_LOW_MAX
        &&& FLICKER_HIGH_MIN <= self.flicker_r_high < FLICKER_HIGH_MAX
        &&& FLICKER_FLOOR <= self.intensity <= FLICKER_CEIL
    }

    /// One tick of the cycle with a given draw; see `advanced`.
    pub fn advance(&mut self, timer: u64, draw: u64)
        requires
            old(self).wf(),
            draw_range_spec(old(self).state).0 <= draw < draw_range_spec(old(self).state).1,
        ensures
            *final(self) == advanced(*old(self), timer, draw),
            final(self).wf(),
    {
        match self.state {
            FlickerPhase::RampUp => {
                if self.intensity > self.flicker_r_high {
                    self.state = FlickerPhase::Hold;
                    self.flicker_r_hold = draw;
                    self.timer = timer;
                } else {
                    self.intensity = self.intensity + FLICKER_UP_STEP;
                }
            },
            FlickerPhase::Hold => {
                if timer >= self.timer && timer - self.timer > self.flicker_r_hold {
                    self.state = FlickerPhase::RampDown;
                    self.flicker_r_low = draw;
                }
            },
            FlickerPhase::RampDown => {
                if self.intensity < self.flicker_r_low {
                    self.state = FlickerPhase::Pause;
                    self.flicker_r_pause = draw;
                    self.timer = timer;
                } else {
                    self.intensity = self.intensity - FLICKER_DOWN_STEP;
                }
            },
            FlickerPhase::Pause => {
                if timer >= self.timer && timer - self.timer > self.flicker_r_pause {
                    self.state = FlickerPhase::RampUp;
                    self.flicker_r_high = draw;
                }
            },
        }
    }

    /// One tick of the cycle at time `timer`, drawing the next threshold or
    /// duration at random. Whatever is drawn, the intensity stays within
    /// `FLICKER_FLOOR..=FLICKER_CEIL`.
    pub fn update_intensity(&mut self, timer: u64)
        requires
            old(self).wf(),
        ensures
            final(self).wf(),
            exists|draw: u64| draw_range_spec(old(self).state).0 <= draw < draw_range_spec(old(self).state).1
                && *final(self) == advanced(*old(self), timer, draw),
    {
        let (lo, hi) = draw_range(self.state);
        let draw = random_in(lo, hi);
        self.advance(timer, draw);
    }

    /// A torch at the start of a ramp up, with thresholds and an intensity
    /// drawn at random.
    pub fn new_random() -> (t: Torch)
        ensures
            t.wf(),
            t.state == FlickerPhase::RampUp,
            t.timer == 0,
            FLICKER_LOW_MIN <= t.intensity < FLICKER_LOW_MAX,
    {
        Torch {
            flicker_r_low: random_in(FLICKER_LOW_MIN, FLICKER_LOW_MAX),
            flicker_r_high: random_in(FLICKER_HIGH_MIN, FLICKER_HIGH_MAX),
            flicker_r_hold: random_in(40000, 80000),
            flicker_r_pause: random_in(100000, 200000),
            state: FlickerPhase::RampUp,
            intensity: random_in(FLICKER_LOW_MIN, FLICKER_LOW_MAX),
            timer: 0,
        }
    }
}

impl Default for Torch {
    fn default() -> (t: Torch)
        ensures
            t.wf(),
            t.state == FlickerPhase::RampUp,
            t.timer == 0,
            FLICKER_LOW_MIN <= t.intensity < FLICKER_LOW_MAX,
    {
        Torch::new_random()
    }
}

/// A run of ticks `(time, draw)` in which every draw lies in the range its
/// phase draws from.
pub open spec fn valid_run(t: Torch, ticks: Seq<(u64, u64)>) -> bool
    decreases ticks.len(),
{
    ticks.len() == 0 || {
        &&& draw_range_spec(t.state).0 <= ticks[0].1 < draw_range_spec(t.state).1
        &&& valid_run(advanced(t, ticks[0].0, ticks[0].1), ticks.drop_first())
    }
}

/// The torch after a run of ticks.
pub open spec fn run(t: Torch, ticks: Seq<(u64, u64)>) -> Torch
    decreases ticks.len(),
{
    if ticks.len() == 0 { t } else { run(advanced(t, ticks[0].0, ticks[0].1), ticks.drop_first()) }
}

/// However long a torch runs, and whatever is drawn, its intensity stays
/// within `FLICKER_FLOOR..=FLICKER_CEIL` and its thresholds in their ranges.
pub proof fn lemma_flicker_stays_in_envelope(t: Torch, ticks: Seq<(u64, u64)>)
    requires
        t.wf(),
        valid_run(t, ticks),
    ensures
        run(t, ticks).wf(),
        FLICKER_FLOOR <= run(t, ticks).intensity <= FLICKER_CEIL,
    decreases ticks.len(),
{
    if ticks.len() > 0 {
        lemma_flicker_stays_in_envelope(advanced(t, ticks[0].0, ticks[0].1), ticks.drop_first());
    }
}

} // verus!
