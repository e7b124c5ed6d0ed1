//! What a plug used over time.
use vstd::prelude::*;

verus! {

/// A moment: the seconds since the start of 1970 in UTC, and the nanoseconds after that. A leap
/// second is the second before it with a thousand million nanoseconds more.
#[derive(Debug, Clone, Copy, PartialEq, Eq)]
pub struct UtcInstant {
    pub seconds: i64,
    pub nanoseconds: u32,
}

/// A wall-clock time: the seconds since the start of 1970 on the same clock, and the nanoseconds
/// after that, with leap seconds as in a moment.
#[derive(Debug, Clone, Copy, PartialEq, Eq)]
pub struct LocalInstant {
    pub seconds: i64,
    pub nanoseconds: u32,
}

/// A day of the calendar, with the month and the day counted from 1.
#[derive(Debug, Clone, Copy, PartialEq, Eq)]
pub struct CalendarDate {
    pub year: i32,
    pub month: u32,
    pub day: u32,
}

/// The stretch of time and the steps that a history of energy is asked for. Both days of a stretch
/// belong to it.
#[derive(Debug, Clone, Copy, PartialEq, Eq)]
pub enum EnergyHistoryInterval {
    Hourly { start_date: CalendarDate, end_date: CalendarDate },
    Daily { start_date: CalendarDate },
    Monthly { start_date: CalendarDate },
}

/// The stretch of time and the steps that a history of power is asked for.
#[derive(Debug, Clone, Copy, PartialEq, Eq)]
pub enum PowerHistoryInterval {
    Every5Minutes { start_date_time: UtcInstant, end_date_time: UtcInstant },
    Hourly { start_date_time: UtcInstant, end_date_time: UtcInstant },
}

/// Whether the year has a 29th of February.
pub open spec fn is_leap_year(year: int) -> bool {
    year % 4 == 0 && (year % 100 != 0 || year % 400 == 0)
}

/// How many days a month of the year has, the months counted from 1.
pub open spec fn days_in_month(year: int, month: int) -> int {
    if month == 2 {
        if is_leap_year(year) {
            29
        } else {
            28
        }
    } else if month == 4 || month == 6 || month == 9 || month == 11 {
        30
    } else {
        31
    }
}

/// Whether the date is a day of the Gregorian calendar, in a year from -262143 to 262142.
pub open spec fn calendar_date(d: CalendarDate) -> bool {
    &&& -262143 <= d.year <= 262142
    &&& 1 <= d.month <= 12
    &&& 1 <= d.day <= days_in_month(d.year as int, d.month as int)
}

/// Whether there is such a time: a second of the years from -262143 to 262142, and nanoseconds
/// within it or, at the end of a minute, within the leap second after it.
pub open spec fn clock_time(seconds: i64, nanoseconds: u32) -> bool {
    &&& -8334601228800 <= seconds <= 8210266876799
    &&& nanoseconds < 1000000000 || (nanoseconds < 2000000000 && seconds % 60 == 59)
}

/// Whether every date of the interval is one.
pub open spec fn energy_interval(interval: EnergyHistoryInterval) -> bool {
    match interval {
        EnergyHistoryInterval::Hourly { start_date, end_date } => calendar_date(start_date)
            && calendar_date(end_date),
        EnergyHistoryInterval::Daily { start_date } => calendar_date(start_date),
        EnergyHistoryInterval::Monthly { start_date } => calendar_date(start_date),
    }
}

/// Whether every moment of the interval is one.
pub open spec fn power_interval(interval: PowerHistoryInterval) -> bool {
    match interval {
        PowerHistoryInterval::Every5Minutes { start_date_time, end_date_time } => clock_time(
            start_date_time.seconds,
            start_date_time.nanoseconds,
        ) && clock_time(end_date_time.seconds, end_date_time.nanoseconds),
        PowerHistoryInterval::Hourly { start_date_time, end_date_time } => clock_time(
            start_date_time.seconds,
            start_date_time.nanoseconds,
        ) && clock_time(end_date_time.seconds, end_date_time.nanoseconds),
    }
}

/// Whether the date is a day of the calendar.
pub fn is_calendar_date(d: CalendarDate) -> (r: bool)
    ensures
        r == calendar_date(d),
{
    if d.year < -262143 || d.year > 262142 || d.month < 1 || d.month > 12 || d.day < 1 {
        return false;
    }
    // The calendar repeats every 400 years.
    let year: u32 = (d.year + 262400) as u32;
    let leap = year % 4 == 0 && (year % 100 != 0 || year % 400 == 0);
    proof {
        assert(year as int % 4 == d.year as int % 4);
        assert(year as int % 100 == d.year as int % 100);
        assert(year as int % 400 == d.year as int % 400);
    }
    let length: u32 = if d.month == 2 {
        if leap {
            29
        } else {
            28
        }
    } else if d.month == 4 || d.month == 6 || d.month == 9 || d.month == 11 {
        30
    } else {
        31
    };
    d.day <= length
}

/// Whether there is such a time.
fn is_clock_time(seconds: i64, nanoseconds: u32) -> (r: bool)
    ensures
        r == clock_time(seconds, nanoseconds),
{
    if seconds < -8334601228800 || seconds > 8210266876799 || nanoseconds >= 2000000000 {
        return false;
    }
    // The first second of all starts a minute.
    let since: u64 = (seconds + 8334601228800) as u64;
    proof {
        assert(since as int % 60 == seconds as int % 60);
    }
    nanoseconds < 1000000000 || since % 60 == 59
}

impl UtcInstant {
    /// Whether there is such a moment.
    pub fn exists_in_time(&self) -> (r: bool)
        ensures
            r == clock_time(self.seconds, self.nanoseconds),
    {
        is_clock_time(self.seconds, self.nanoseconds)
    }
}

impl LocalInstant {
    /// Whether there is such a wall-clock time.
    pub fn exists_in_time(&self) -> (r: bool)
        ensures
            r == clock_time(self.seconds, self.nanoseconds),
    {
        is_clock_time(self.seconds, self.nanoseconds)
    }
}

/// Whether a history of energy can be asked for over the interval: every date of it is one.
pub fn is_energy_interval(interval: EnergyHistoryInterval) -> (r: bool)
    ensures
        r == energy_interval(interval),
{
    match interval {
        EnergyHistoryInterval::Hourly { start_date, end_date } => is_calendar_date(start_date)
            && is_calendar_date(end_date),
        EnergyHistoryInterval::Daily { start_date } => is_calendar_date(start_date),
        EnergyHistoryInterval::Monthly { start_date } => is_calendar_date(start_date),
    }
}

/// Whether a history of power can be asked for over the interval: every moment of it is one.
pub fn is_power_interval(interval: PowerHistoryInterval) -> (r: bool)
    ensures
        r == power_interval(interval),
{
    match interval {
        PowerHistoryInterval::Every5Minutes { start_date_time, end_date_time } =>
            start_date_time.exists_in_time() && end_date_time.exists_in_time(),
        PowerHistoryInterval::Hourly { start_date_time, end_date_time } =>
            start_date_time.exists_in_time() && end_date_time.exists_in_time(),
    }
}

/// The energy of one interval, as a plug reports it.
#[derive(Debug, Clone, Copy, PartialEq, Eq)]
pub struct EnergyReading {
    pub start_date_time: UtcInstant,
    pub energy: u64,
}

/// A plug's report of its energy over time.
#[derive(Debug, Clone, PartialEq, Eq)]
pub struct EnergyReport {
    pub local_time: LocalInstant,
    pub start_date_time: UtcInstant,
    pub interval_length: u64,
    pub entries: Vec<EnergyReading>,
}

/// The power in one interval, as a plug reports it.
#[derive(Debug, Clone, Copy, PartialEq, Eq)]
pub struct PowerReading {
    pub start_date_time: UtcInstant,
    pub power: Option<u64>,
}

/// A plug's report of its power over time.
#[derive(Debug, Clone, PartialEq, Eq)]
pub struct PowerReport {
    pub start_date_time: UtcInstant,
    pub end_date_time: UtcInstant,
    pub interval_length: u64,
    pub entries: Vec<PowerReading>,
}

/// The energy that a plug used in one interval.
#[derive(Debug, Clone, Copy, PartialEq, Eq)]
pub struct EnergyHistoryEntry {
    pub start_date_time: UtcInstant,
    pub energy_wh: u64,
}

/// The energy that a plug used over time.
#[derive(Debug, Clone, PartialEq, Eq)]
pub struct EnergyHistory {
    pub local_time: LocalInstant,
    pub start_date_time: UtcInstant,
    pub interval_length_minutes: u64,
    pub entries: Vec<EnergyHistoryEntry>,
}

/// The power that a plug drew in one interval, where it is known.
#[derive(Debug, Clone, Copy, PartialEq, Eq)]
pub struct PowerHistoryEntry {
    pub start_date_time: UtcInstant,
    pub power_w: Option<u64>,
}

/// The power that a plug drew over time.
#[derive(Debug, Clone, PartialEq, Eq)]
pub struct PowerHistory {
    pub start_date_time: UtcInstant,
    pub end_date_time: UtcInstant,
    pub interval_length_minutes: u64,
    pub entries: Vec<PowerHistoryEntry>,
}

/// The entries of a history of energy, one for each reading and in order.
pub open spec fn energy_entries(readings: Seq<EnergyReading>) -> Seq<EnergyHistoryEntry> {
    readings.map_values(
        |e: EnergyReading|
            EnergyHistoryEntry { start_date_time: e.start_date_time, energy_wh: e.energy },
    )
}

/// The entries of a history of power, one for each reading and in order.
pub open spec fn power_entries(readings: Seq<PowerReading>) -> Seq<PowerHistoryEntry> {
    readings.map_values(
        |e: PowerReading|
            PowerHistoryEntry { start_date_time: e.start_date_time, power_w: e.power },
    )
}

/// The history that a report of energy tells.
pub fn energy_history(report: &EnergyReport) -> (r: EnergyHistory)
    ensures
        r.local_time == report.local_time,
        r.start_date_time == report.start_date_time,
        r.interval_length_minutes == report.interval_length,
        r.entries@ == energy_entries(report.entries@),
        r.entries@.len() == report.entries@.len(),
        forall|i: int|
            0 <= i < report.entries@.len() ==> (#[trigger] r.entries@[i]).energy_wh
                == report.entries@[i].energy && r.entries@[i].start_date_time
                == report.entries@[i].start_date_time,
{
    let mut entries: Vec<EnergyHistoryEntry> = Vec::new();
    let mut i: usize = 0;
    while i < report.entries.len()
        invariant
            i <= report.entries.len(),
            entries@ == energy_entries(report.entries@).take(i as int),
        decreases report.entries.len() - i,
    {
        let entry = report.entries[i];
        entries.push(
            EnergyHistoryEntry { start_date_time: entry.start_date_time, energy_wh: entry.energy },
        );
        i += 1;
        proof {
            assert(entries@ =~= energy_entries(report.entries@).take(i as int));
        }
    }
    proof {
        let all = energy_entries(report.entries@);
        assert(all.take(all.len() as int) =~= all);
    }
    EnergyHistory {
        local_time: report.local_time,
        start_date_time: report.start_date_time,
        interval_length_minutes: report.interval_length,
        entries,
    }
}

/// The history that a report of power tells.
pub fn power_history(report: &PowerReport) -> (r: PowerHistory)
    ensures
        r.start_date_time == report.start_date_time,
        r.end_date_time == report.end_date_time,
        r.interval_length_minutes == report.interval_length,
        r.entries@ == power_entries(report.entries@),
        r.entries@.len() == report.entries@.len(),
        forall|i: int|
            0 <= i < report.entries@.len() ==> (#[trigger] r.entries@[i]).power_w
                == report.entries@[i].power && r.entries@[i].start_date_time
                == report.entries@[i].start_date_time,
{
    let mut entries: Vec<PowerHistoryEntry> = Vec::new();
    let mut i: usize = 0;
    while i < report.entries.len()
        invariant
            i <= report.entries.len(),
            entries@ == power_entries(report.entries@).take(i as int),
        decreases report.entries.len() - i,
    {
        let entry = report.entries[i];
        entries.push(
            PowerHistoryEntry { start_date_time: entry.start_date_time, power_w: entry.power },
        );
        i += 1;
        proof {
            assert(entries@ =~= power_entries(report.entries@).take(i as int));
        }
    }
    proof {
        let all = power_entries(report.entries@);
        assert(all.take(all.len() as int) =~= all);
    }
    PowerHistory {
        start_date_time: report.start_date_time,
        end_date_time: report.end_date_time,
        interval_length_minutes: report.interval_length,
        entries,
    }
}

// Laws

/// A history of energy has an entry for each reading, with its start and its energy unchanged.
pub proof fn law_energy_readings_are_kept(readings: Seq<EnergyReading>)
    ensures
        energy_entries(readings).len() == readings.len(),
        forall|i: int|
            0 <= i < readings.len() ==> (#[trigger] energy_entries(readings)[i]).energy_wh
                == readings[i].energy && energy_entries(readings)[i].start_date_time
                == readings[i].start_date_time,
{
}

/// A history of power has an entry for each reading, with its start and its power unchanged.
pub proof fn law_power_readings_are_kept(readings: Seq<PowerReading>)
    ensures
        power_entries(readings).len() == readings.len(),
        forall|i: int|
            0 <= i < readings.len() ==> (#[trigger] power_entries(readings)[i]).power_w
                == readings[i].power && power_entries(readings)[i].start_date_time
                == readings[i].start_date_time,
{
}

/// Of every month the first 28 days are dates; the 29th is one but in February of a common year,
/// the 30th but in February, and the 31st in the seven long months.
pub proof fn law_calendar_dates(d: CalendarDate)
    ensures
        calendar_date(d) ==> -262143 <= d.year <= 262142 && 1 <= d.month <= 12 && 1 <= d.day <= 31,
        -262143 <= d.year <= 262142 && 1 <= d.month <= 12 ==> {
            &&& 1 <= d.day <= 28 ==> calendar_date(d)
            &&& d.day == 29 ==> (calendar_date(d) <==> d.month != 2 || d.year % 400 == 0 || (d.year
                % 4 == 0 && d.year % 100 != 0))
            &&& d.day == 30 ==> (calendar_date(d) <==> d.month != 2)
            &&& d.day == 31 ==> (calendar_date(d) <==> (d.month <= 7 && d.month % 2 == 1) || (
            d.month >= 8 && d.month % 2 == 0))
        },
{
}

/// The calendar repeats after 400 years.
pub proof fn law_calendar_repeats(d: CalendarDate, e: CalendarDate)
    requires
        -262143 <= d.year,
        e.year <= 262142,
        e.year == d.year + 400,
        e.month == d.month,
        e.day == d.day,
    ensures
        calendar_date(d) == calendar_date(e),
{
}

/// Every second from the first of the year -262143 to the last of 262142 is a time with any
/// nanosecond within it, and with one of a leap second only at the end of a minute.
pub proof fn law_clock_times(seconds: i64, nanoseconds: u32)
    ensures
        clock_time(seconds, nanoseconds) ==> -8334601228800 <= seconds <= 8210266876799
            && nanoseconds <= 1999999999,
        -8334601228800 <= seconds <= 8210266876799 && nanoseconds <= 999999999 ==> clock_time(
            seconds,
            nanoseconds,
        ),
        -8334601228800 <= seconds <= 8210266876799 && 1000000000 <= nanoseconds <= 1999999999 ==> (
        clock_time(seconds, nanoseconds) <==> (seconds + 1) % 60 == 0),
{
}

/// An interval can be asked for exactly where each of its dates or times is one.
pub proof fn law_intervals_hold_what_exists(
    first: CalendarDate,
    last: CalendarDate,
    start: UtcInstant,
    end: UtcInstant,
)
    ensures
        energy_interval(EnergyHistoryInterval::Hourly { start_date: first, end_date: last }) <==>
            calendar_date(first) && calendar_date(last),
        energy_interval(EnergyHistoryInterval::Daily { start_date: first }) <==> calendar_date(
            first,
        ),
        energy_interval(EnergyHistoryInterval::Monthly { start_date: first }) <==> calendar_date(
            first,
        ),
        power_interval(
            PowerHistoryInterval::Every5Minutes { start_date_time: start, end_date_time: end },
        ) <==> clock_time(start.seconds, start.nanoseconds) && clock_time(
            end.seconds,
            end.nanoseconds,
        ),
        power_interval(
            PowerHistoryInterval::Hourly { start_date_time: start, end_date_time: end },
        ) <==> clock_time(start.seconds, start.nanoseconds) && clock_time(
            end.seconds,
            end.nanoseconds,
        ),
{
}

} // verus!
