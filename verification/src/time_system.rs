//! Simulated time and the time-window condition check.
//!
//! The simulation tracks time as a day of the week (Monday is 0) and a minute
//! of the day. Turning a calendar date into a day of the week is the one job
//! left to an outside calendar crate; everything else is plain arithmetic.

use vstd::prelude::*;

verus! {

/// A point of simulated time: a day of the week (0 is Monday, 6 is Sunday)
/// and a minute of the day (0 through 1439).
#[derive(Clone, Copy, Debug, PartialEq, Eq, Structural)]
pub struct SimTime {
    pub weekday: u8,
    pub minute: u16,
}

impl SimTime {
    /// A time value is well formed when the day and the minute are in range.
    pub open spec fn wf(self) -> bool {
        self.weekday < 7 && self.minute < 1440
    }

    /// The simulated time at which a fresh session starts.
    pub fn session_start() -> (t: SimTime)
        ensures
            t == (SimTime { weekday: 0u8, minute: 0u16 }),
            t.wf(),
    {
        SimTime { weekday: 0, minute: 0 }
    }

    /// The time of day `h:mi` on the calendar date `y-mo-d`, if the date is a
    /// valid calendar date and the time of day is in range.
    pub fn from_ymd_hm(y: i32, mo: u32, d: u32, h: u32, mi: u32) -> (r: Option<SimTime>)
        ensures
            r is Some <==> (weekday_ymd(y, mo, d) is Some && h < 24 && mi < 60),
            r matches Some(t) ==> {
                &&& Some(t.weekday) == weekday_ymd(y, mo, d)
                &&& t.minute == h * 60 + mi
                &&& t.wf()
            },
    {
        if h >= 24 || mi >= 60 {
            return None;
        }
        match weekday_from_ymd(y, mo, d) {
            Some(w) => Some(SimTime { weekday: w, minute: (h * 60 + mi) as u16 }),
            None => None,
        }
    }
}

/// The day of the week (0 is Monday) of the calendar date `y-mo-d`, or no
/// value when the date is not a valid calendar date.
pub uninterp spec fn weekday_ymd(y: i32, mo: u32, d: u32) -> Option<u8>;

/// Relies on chrono's NaiveDate::from_ymd_opt and Weekday::num_days_from_monday:
/// an invalid or out-of-range date gives no value; a valid date gives its day
/// of the week counted from Monday as 0, always below 7. The result depends on
/// the arguments alone.
#[verifier::external_body]
fn weekday_from_ymd(y: i32, mo: u32, d: u32) -> (r: Option<u8>)
    ensures
        r == weekday_ymd(y, mo, d),
        r matches Some(w) ==> w < 7,
{
    chrono::NaiveDate::from_ymd_opt(y, mo, d).map(|date| {
        chrono::Datelike::weekday(&date).num_days_from_monday() as u8
    })
}

/// Whether the day of the week `w` is one of the allowed days.
pub open spec fn day_allowed(days: Seq<u8>, w: u8) -> bool {
    exists|i: int| 0 <= i < days.len() && days[i] == w
}

/// Whether the minute of the day `m` is one of the listed minutes; an absent
/// list allows every minute.
pub open spec fn minute_listed(times: Option<Vec<u16>>, m: u16) -> bool {
    match times {
        Option::None => true,
        Option::Some(v) => exists|i: int| 0 <= i < v@.len() && v@[i] == m,
    }
}

/// Whether the time window `c` contains the simulated time `t`: the day must
/// be allowed, the minute must lie in `[start, end]`, and, when discrete
/// minutes are listed, the minute must equal one of them.
pub open spec fn time_met(c: crate::conditions::TimeCondition, t: SimTime) -> bool {
    &&& day_allowed(c.days@, t.weekday)
    &&& c.start <= t.minute <= c.end
    &&& minute_listed(c.times, t.minute)
}

/// The simulated clock. It carries no state of its own: the current time
/// lives in the world state.
pub struct TimeSystem;

impl TimeSystem {
    pub fn new() -> (t: TimeSystem) {
        TimeSystem
    }

    /// The simulated time a session's clock is initialized to: seven in the
    /// morning of the second simulated day, a Tuesday.
    pub fn init_time() -> (t: SimTime)
        ensures
            t == (SimTime { weekday: 1u8, minute: 420u16 }),
            t.wf(),
    {
        SimTime { weekday: 1, minute: 420 }
    }

    /// The current simulated time of the given world state.
    pub fn get_current_time(player: &crate::player::Player) -> (t: SimTime)
        ensures
            t == player.game_time,
    {
        player.game_time
    }

    /// Advances time by one step. The step is currently empty: the simulated
    /// clock stands still between explicit time mutations.
    pub fn update(&self, player: &mut crate::player::Player)
        ensures
            *final(player) == *old(player),
    {
    }

    /// Whether the time window `condition` contains the world's current time.
    pub fn check_condition(
        &self,
        player: &crate::player::Player,
        condition: &crate::conditions::TimeCondition,
    ) -> (r: bool)
        ensures
            r == time_met(*condition, player.game_time),
    {
        let t = player.game_time;
        let mut day_ok = false;
        let n = condition.days.len();
        for i in 0..n
            invariant
                n == condition.days.len(),
                day_ok == exists|k: int| 0 <= k < i && condition.days@[k] == t.weekday,
        {
            if condition.days[i] == t.weekday {
                day_ok = true;
            }
        }
        if !day_ok {
            return false;
        }
        if !(condition.start <= t.minute && t.minute <= condition.end) {
            return false;
        }
        match &condition.times {
            Option::None => true,
            Option::Some(v) => {
                let m = v.len();
                for i in 0..m
                    invariant
                        m == v.len(),
                        forall|k: int| 0 <= k < i ==> v@[k] != t.minute,
                {
                    if v[i] == t.minute {
                        return true;
                    }
                }
                false
            },
        }
    }
}

} // verus!
