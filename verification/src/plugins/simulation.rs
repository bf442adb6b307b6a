//! The in-game calendar: seasons and the events a change of date raises.
use vstd::prelude::*;

verus! {

/// Season of the year
#[derive(Clone, Copy, Debug, PartialEq, Eq, Structural)]
pub enum Season {
    Spring,
    Summer,
    Autumn,
    Winter,
}

impl Default for Season {
    fn default() -> (r: Self)
        ensures
            r == Season::Spring,
    {
        Season::Spring
    }
}

/// The season of a day of the year: days 1-91 spring, 92-182 summer,
/// 183-273 autumn, the rest winter.
pub open spec fn spec_season_for_day(day_of_year: u16) -> Season {
    if 1 <= day_of_year <= 91 {
        Season::Spring
    } else if 92 <= day_of_year <= 182 {
        Season::Summer
    } else if 183 <= day_of_year <= 273 {
        Season::Autumn
    } else {
        Season::Winter
    }
}

/// The season of a day of the year
pub fn season_for_day(day_of_year: u16) -> (r: Season)
    ensures
        r == spec_season_for_day(day_of_year),
        1 <= day_of_year <= 91 ==> r == Season::Spring,
        92 <= day_of_year <= 182 ==> r == Season::Summer,
        183 <= day_of_year <= 273 ==> r == Season::Autumn,
        day_of_year == 0 || day_of_year >= 274 ==> r == Season::Winter,
{
    match day_of_year {
        1..=91 => Season::Spring,
        92..=182 => Season::Summer,
        183..=273 => Season::Autumn,
        _ => Season::Winter,
    }
}

/// In-game calendar for player-facing time display
#[derive(Clone, Copy, Debug, PartialEq, Eq, Structural)]
pub struct GameCalendar {
    /// Year (starting from year 1)
    pub year: u32,
    /// Day of year (1-365)
    pub day_of_year: u16,
    /// Hour of day (0-23)
    pub hour: u8,
    /// Minute of hour (0-59)
    pub minute: u8,
    /// Season based on day of year
    pub season: Season,
}

impl Default for GameCalendar {
    fn default() -> (r: Self)
        ensures
            r == (GameCalendar { year: 0, day_of_year: 0, hour: 0, minute: 0, season: Season::Spring }),
    {
        GameCalendar { year: 0, day_of_year: 0, hour: 0, minute: 0, season: Season::Spring }
    }
}

impl GameCalendar {
    /// The calendar for a year, a day index (the whole days elapsed in the
    /// year: day 1 is the first day, and after one day it is day 2), an
    /// hour and a minute; the season follows from the day. Days run from 1
    /// to 365: the last quarter day of a 365.25-day year stays on day 365.
    pub fn from_components(year: u32, day_index: u16, hour: u8, minute: u8) -> (r: Self)
        ensures
            r.year == year,
            r.day_of_year == if day_index < 365 {
                day_index + 1
            } else {
                365
            },
            r.hour == hour,
            r.minute == minute,
            r.season == spec_season_for_day(r.day_of_year),
    {
        let day_of_year = if day_index < 365 {
            day_index + 1
        } else {
            365
        };
        let season = season_for_day(day_of_year);
        GameCalendar { year, day_of_year, hour, minute, season }
    }
}

/// Calendar events raised when the date changes
#[derive(Clone, Copy, Debug, PartialEq, Eq, Structural)]
pub enum CalendarEvent {
    /// New day started (for day/night cycle)
    NewDay { day_number: u32 },
    /// New year started
    NewYear { year_number: u32 },
    /// Season changed
    SeasonChanged { new_season: Season },
}

/// The events raised when the calendar moves from `old` to `new`, in order:
/// a new day when the day of the year changed (with `day_number`, the whole
/// days elapsed), a new year when the year changed, and a season change when
/// the season changed.
pub open spec fn spec_calendar_events(old: GameCalendar, new: GameCalendar, day_number: u32) -> Seq<CalendarEvent> {
    (if new.day_of_year != old.day_of_year {
        seq![CalendarEvent::NewDay { day_number }]
    } else {
        Seq::empty()
    }) + (if new.year != old.year {
        seq![CalendarEvent::NewYear { year_number: new.year }]
    } else {
        Seq::empty()
    }) + (if new.season != old.season {
        seq![CalendarEvent::SeasonChanged { new_season: new.season }]
    } else {
        Seq::empty()
    })
}

/// One if `b` holds, else zero.
pub open spec fn flag(b: bool) -> int {
    if b {
        1
    } else {
        0
    }
}

/// The events to send for a change of calendar from `old` to `new`.
pub fn calendar_events(old: &GameCalendar, new: &GameCalendar, day_number: u32) -> (r: Vec<CalendarEvent>)
    ensures
        r@ == spec_calendar_events(*old, *new, day_number),
        r@.contains((CalendarEvent::NewDay { day_number })) <==> new.day_of_year != old.day_of_year,
        r@.contains((CalendarEvent::NewYear { year_number: new.year })) <==> new.year != old.year,
        r@.contains((CalendarEvent::SeasonChanged { new_season: new.season })) <==> new.season != old.season,
        new.day_of_year != old.day_of_year ==> r@[0] == (CalendarEvent::NewDay { day_number }),
        r@.len() == flag(new.day_of_year != old.day_of_year) + flag(new.year != old.year) + flag(
            new.season != old.season,
        ),
        forall|i: int|
            0 <= i < r@.len() ==> #[trigger] r@[i] == (CalendarEvent::NewDay { day_number }) || r@[i]
                == (CalendarEvent::NewYear { year_number: new.year }) || r@[i] == (CalendarEvent::SeasonChanged { new_season: new.season }),
{
    let mut events: Vec<CalendarEvent> = Vec::new();
    if new.day_of_year != old.day_of_year {
        events.push(CalendarEvent::NewDay { day_number });
    }
    if new.year != old.year {
        events.push(CalendarEvent::NewYear { year_number: new.year });
    }
    if new.season != old.season {
        events.push(CalendarEvent::SeasonChanged { new_season: new.season });
    }
    proof {
        assert(events@ =~= spec_calendar_events(*old, *new, day_number));
        law_calendar_events(*old, *new, day_number);
    }
    events
}

/// Law: the seasons split the year into quarters: days 1 to 91 are spring,
/// 92 to 182 summer, 183 to 273 autumn, and the rest winter.
pub proof fn law_seasons_by_day(d: u16)
    ensures
        1 <= d <= 91 ==> spec_season_for_day(d) == Season::Spring,
        92 <= d <= 182 ==> spec_season_for_day(d) == Season::Summer,
        183 <= d <= 273 ==> spec_season_for_day(d) == Season::Autumn,
        d == 0 || d >= 274 ==> spec_season_for_day(d) == Season::Winter,
{
}

/// Law: a change of date raises a new day exactly when the day of the year
/// changed, first, and with the given day number, whatever happened to the
/// year and season; a new year exactly when the year changed; a season
/// change exactly when the season changed; and nothing else.
pub proof fn law_calendar_events(old: GameCalendar, new: GameCalendar, day_number: u32)
    ensures
        spec_calendar_events(old, new, day_number).contains((CalendarEvent::NewDay { day_number })) <==> new.day_of_year
            != old.day_of_year,
        spec_calendar_events(old, new, day_number).contains((CalendarEvent::NewYear { year_number: new.year }))
            <==> new.year != old.year,
        spec_calendar_events(old, new, day_number).contains((CalendarEvent::SeasonChanged { new_season: new.season }))
            <==> new.season != old.season,
        new.day_of_year != old.day_of_year ==> spec_calendar_events(old, new, day_number)[0] == (CalendarEvent::NewDay { day_number }),
        spec_calendar_events(old, new, day_number).len() == flag(new.day_of_year != old.day_of_year) + flag(
            new.year != old.year,
        ) + flag(new.season != old.season),
        forall|i: int|
            0 <= i < spec_calendar_events(old, new, day_number).len() ==> #[trigger] spec_calendar_events(
                old,
                new,
                day_number,
            )[i] == (CalendarEvent::NewDay { day_number }) || spec_calendar_events(old, new, day_number)[i]
                == (CalendarEvent::NewYear { year_number: new.year }) || spec_calendar_events(old, new, day_number)[i]
                == (CalendarEvent::SeasonChanged { new_season: new.season }),
{
    let r = spec_calendar_events(old, new, day_number);
    let a: Seq<CalendarEvent> = if new.day_of_year != old.day_of_year {
        seq![CalendarEvent::NewDay { day_number }]
    } else {
        Seq::empty()
    };
    let b: Seq<CalendarEvent> = if new.year != old.year {
        seq![CalendarEvent::NewYear { year_number: new.year }]
    } else {
        Seq::empty()
    };
    let c: Seq<CalendarEvent> = if new.season != old.season {
        seq![CalendarEvent::SeasonChanged { new_season: new.season }]
    } else {
        Seq::empty()
    };
    assert(r == a + b + c);
    if new.day_of_year != old.day_of_year {
        assert(r[0] == CalendarEvent::NewDay { day_number });
    }
    if new.year != old.year {
        assert(r[a.len() as int] == CalendarEvent::NewYear { year_number: new.year });
    }
    if new.season != old.season {
        assert(r[(a.len() + b.len()) as int] == CalendarEvent::SeasonChanged { new_season: new.season });
    }
    assert forall|i: int| 0 <= i < r.len() implies #[trigger] r[i] == CalendarEvent::NewDay { day_number } || r[i]
        == CalendarEvent::NewYear { year_number: new.year } || r[i] == CalendarEvent::SeasonChanged {
        new_season: new.season,
    } by {
        if i < a.len() {
            assert(r[i] == a[i]);
        } else if i < a.len() + b.len() {
            assert(r[i] == b[i - a.len()]);
        } else {
            assert(r[i] == c[i - a.len() - b.len()]);
        }
    }
    if r.contains(CalendarEvent::NewDay { day_number }) {
        let i = choose|i: int| 0 <= i < r.len() && r[i] == CalendarEvent::NewDay { day_number };
        if i >= a.len() {
            if i < a.len() + b.len() {
                assert(r[i] == b[i - a.len()]);
            } else {
                assert(r[i] == c[i - a.len() - b.len()]);
            }
        }
    }
    if r.contains(CalendarEvent::NewYear { year_number: new.year }) {
        let i = choose|i: int| 0 <= i < r.len() && r[i] == CalendarEvent::NewYear { year_number: new.year };
        if i < a.len() {
            assert(r[i] == a[i]);
        } else if i >= a.len() + b.len() {
            assert(r[i] == c[i - a.len() - b.len()]);
        }
    }
    if r.contains(CalendarEvent::SeasonChanged { new_season: new.season }) {
        let i = choose|i: int| 0 <= i < r.len() && r[i] == CalendarEvent::SeasonChanged { new_season: new.season };
        if i < a.len() {
            assert(r[i] == a[i]);
        } else if i < a.len() + b.len() {
            assert(r[i] == b[i - a.len()]);
        }
    }
}

/// Law: an unchanged calendar raises no event.
pub proof fn law_no_change_no_events(c: GameCalendar, day_number: u32)
    ensures
        spec_calendar_events(c, c, day_number).len() == 0,
{
}

} // verus!
