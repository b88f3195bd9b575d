//! Business-day calendars, modelled over plain day values.
//!
//! The surrounding analytics treat calendars as an external date-adjustment
//! service; here a date is carried as its timestamp in seconds since the
//! epoch, so that the weekday and holiday predicates are pure integer logic.

use vstd::prelude::*;

verus! {

/// The failure conditions of calendar lookups.
#[derive(Clone, Copy, Debug, PartialEq, Eq, Structural)]
pub enum CalendarError {
    UnknownName,
}

/// Seconds per day.
pub const DAY_SECONDS: i64 = 86_400;

/// The weekday of an epoch timestamp, numbered with Monday as zero. The
/// epoch fell on a Thursday, hence the offset of three.
pub open spec fn weekday_of(ts: int) -> int {
    (ts / (DAY_SECONDS as int) + 3) % 7
}

/// A business-day calendar: a list of holiday dates (as timestamps of their
/// midnights) and the weekday numbers excluded from the working week.
pub struct Cal {
    pub holidays: Vec<i64>,
    pub week_mask: Vec<u8>,
}

impl Cal {
    /// Create a calendar from its holiday dates and its non-working weekday
    /// numbers (Monday is zero, Sunday is six).
    pub fn new(holidays: Vec<i64>, week_mask: Vec<u8>) -> (r: Cal)
        ensures
            r.holidays@ == holidays@,
            r.week_mask@ == week_mask@,
    {
        Cal { holidays, week_mask }
    }

    /// Whether a date falls on a working weekday of this calendar.
    pub fn is_weekday(&self, ts: i64) -> (r: bool)
        ensures
            r == !self.week_mask@.contains(weekday_of(ts as int) as u8),
    {
        proof {
            crate::fixed::lemma_div_keeps_range(ts as int, DAY_SECONDS as int);
        }
        let d = match ts.checked_div_euclid(DAY_SECONDS) {
            Some(v) => v,
            None => {
                proof {
                    assert(false);
                }
                0
            },
        };
        proof {
            vstd::arithmetic::div_mod::lemma_fundamental_div_mod(ts as int, DAY_SECONDS as int);
            vstd::arithmetic::div_mod::lemma_mod_bound(ts as int, DAY_SECONDS as int);
            assert(i64::MIN <= d + 3 <= i64::MAX) by (nonlinear_arith)
                requires
                    ts as int == (DAY_SECONDS as int) * (d as int) + (ts as int) % (
                    DAY_SECONDS as int),
                    0 <= (ts as int) % (DAY_SECONDS as int) < DAY_SECONDS as int,
                    i64::MIN <= ts as int <= i64::MAX,
                    DAY_SECONDS == 86400,
            {
            }
        }
        let w = match (d + 3).checked_rem_euclid(7) {
            Some(v) => v,
            None => {
                proof {
                    assert(false);
                }
                0
            },
        };
        proof {
            vstd::arithmetic::div_mod::lemma_mod_bound((d + 3) as int, 7);
        }
        let wd = w as u8;
        let mut i: usize = 0;
        while i < self.week_mask.len()
            invariant
                i <= self.week_mask@.len(),
                wd == weekday_of(ts as int) as u8,
                forall|j: int| 0 <= j < i ==> self.week_mask@[j] != wd,
            decreases self.week_mask@.len() - i,
        {
            if self.week_mask[i] == wd {
                assert(self.week_mask@.contains(wd));
                return false;
            }
            i = i + 1;
        }
        true
    }

    /// Whether a date is listed as a holiday of this calendar.
    pub fn is_holiday(&self, ts: i64) -> (r: bool)
        ensures
            r == self.holidays@.contains(ts),
    {
        let mut i: usize = 0;
        while i < self.holidays.len()
            invariant
                i <= self.holidays@.len(),
                forall|j: int| 0 <= j < i ==> self.holidays@[j] != ts,
            decreases self.holidays@.len() - i,
        {
            if self.holidays[i] == ts {
                assert(self.holidays@.contains(ts));
                return true;
            }
            i = i + 1;
        }
        false
    }

    /// Whether a date is a business day: a working weekday that is not a
    /// holiday.
    pub fn is_bus_day(&self, ts: i64) -> (r: bool)
        ensures
            r == (!self.week_mask@.contains(weekday_of(ts as int) as u8)
                && !self.holidays@.contains(ts)),
    {
        self.is_weekday(ts) && !self.is_holiday(ts)
    }
}

/// Whether a date falls on a working weekday of a calendar.
pub open spec fn cal_weekday(c: Cal, ts: int) -> bool {
    !c.week_mask@.contains(weekday_of(ts) as u8)
}

/// Whether a date is listed as a holiday of a calendar.
pub open spec fn cal_holiday(c: Cal, ts: int) -> bool {
    c.holidays@.contains(ts as i64)
}

/// Whether a date is a business day of a calendar.
pub open spec fn cal_bus_day(c: Cal, ts: int) -> bool {
    cal_weekday(c, ts) && !cal_holiday(c, ts)
}

/// A union of calendars, optionally constrained by settlement calendars: a
/// weekday must be such in every calendar, a holiday in any calendar holds,
/// and settlement additionally requires a business day in every settlement
/// calendar.
pub struct UnionCal {
    pub calendars: Vec<Cal>,
    pub settlement_calendars: Option<Vec<Cal>>,
}

impl UnionCal {
    /// Combine calendars, optionally with settlement calendars.
    pub fn new(calendars: Vec<Cal>, settlement_calendars: Option<Vec<Cal>>) -> (r: UnionCal)
        ensures
            r.calendars == calendars,
            r.settlement_calendars == settlement_calendars,
    {
        UnionCal { calendars, settlement_calendars }
    }

    /// Whether a date is a working weekday in every member calendar.
    pub fn is_weekday(&self, ts: i64) -> (r: bool)
        ensures
            r == forall|i: int|
                0 <= i < self.calendars@.len() ==> cal_weekday(#[trigger] self.calendars@[i], ts as int),
    {
        let mut i: usize = 0;
        while i < self.calendars.len()
            invariant
                i <= self.calendars@.len(),
                forall|j: int| 0 <= j < i ==> cal_weekday(#[trigger] self.calendars@[j], ts as int),
            decreases self.calendars@.len() - i,
        {
            if !self.calendars[i].is_weekday(ts) {
                return false;
            }
            i = i + 1;
        }
        true
    }

    /// Whether a date is a holiday in any member calendar.
    pub fn is_holiday(&self, ts: i64) -> (r: bool)
        ensures
            r == exists|i: int|
                0 <= i < self.calendars@.len() && cal_holiday(#[trigger] self.calendars@[i], ts as int),
    {
        let mut i: usize = 0;
        while i < self.calendars.len()
            invariant
                i <= self.calendars@.len(),
                forall|j: int| 0 <= j < i ==> !cal_holiday(#[trigger] self.calendars@[j], ts as int),
            decreases self.calendars@.len() - i,
        {
            if self.calendars[i].is_holiday(ts) {
                return true;
            }
            i = i + 1;
        }
        false
    }

    /// Whether a date allows settlement: true when no settlement calendars
    /// are attached, otherwise a business day in every settlement calendar.
    pub fn is_settlement(&self, ts: i64) -> (r: bool)
        ensures
            self.settlement_calendars is None ==> r == true,
            self.settlement_calendars matches Some(v) ==> r == forall|i: int|
                0 <= i < v@.len() ==> cal_bus_day(#[trigger] v@[i], ts as int),
    {
        match &self.settlement_calendars {
            None => true,
            Some(v) => {
                let mut i: usize = 0;
                while i < v.len()
                    invariant
                        i <= v@.len(),
                        self.settlement_calendars matches Some(vv) && vv@ == v@,
                        forall|j: int| 0 <= j < i ==> cal_bus_day(#[trigger] v@[j], ts as int),
                    decreases v@.len() - i,
                {
                    if !v[i].is_bus_day(ts) {
                        assert(!cal_bus_day(v@[i as int], ts as int));
                        return false;
                    }
                    i = i + 1;
                }
                true
            },
        }
    }

    /// Whether a date is a business day of the union: a working weekday in
    /// every member calendar and a holiday in none.
    pub fn is_bus_day(&self, ts: i64) -> (r: bool)
        ensures
            r == ((forall|i: int|
                0 <= i < self.calendars@.len() ==> cal_weekday(
                    #[trigger] self.calendars@[i],
                    ts as int,
                )) && !exists|i: int|
                0 <= i < self.calendars@.len() && cal_holiday(
                    #[trigger] self.calendars@[i],
                    ts as int,
                )),
    {
        self.is_weekday(ts) && !self.is_holiday(ts)
    }
}

/// A calendar handed to the interpolators: either a single calendar or a
/// union of calendars.
pub enum CalType {
    Cal(Cal),
    UnionCal(UnionCal),
}

/// The day-count convention a curve resolves year fractions with.
#[derive(Clone, Copy, Debug, PartialEq, Eq, Structural)]
pub enum Convention {
    Act365F,
}

/// Whether a name denotes one of the bundled calendars.
pub open spec fn is_known_calendar(n: Seq<char>) -> bool {
    ||| n == "all"@
    ||| n == "bus"@
    ||| n == "nyc"@
    ||| n == "tgt"@
    ||| n == "ldn"@
    ||| n == "stk"@
    ||| n == "osl"@
    ||| n == "zur"@
    ||| n == "tro"@
    ||| n == "tyo"@
}

/// The rule annotations attached to a named calendar. The bundled calendars
/// carry no rule annotations, so every known name yields an empty list; an
/// unknown name is rejected.
pub fn get_rules_by_name(name: &String) -> (r: Result<Vec<String>, CalendarError>)
    ensures
        match r {
            Ok(v) => is_known_calendar(name@) && v@.len() == 0,
            Err(e) => e == CalendarError::UnknownName && !is_known_calendar(name@),
        },
{
    let known = *name == "all".to_owned() || *name == "bus".to_owned() || *name
        == "nyc".to_owned() || *name == "tgt".to_owned() || *name == "ldn".to_owned() || *name
        == "stk".to_owned() || *name == "osl".to_owned() || *name == "zur".to_owned() || *name
        == "tro".to_owned() || *name == "tyo".to_owned();
    if known {
        Ok(Vec::new())
    } else {
        Err(CalendarError::UnknownName)
    }
}

} // verus!
