//! The unit in which the refresh interval is written.

use crate::text::same_text;
use vstd::prelude::*;

verus! {

/// A unit of time accepted for the refresh interval.
#[derive(Clone, Copy, Debug, PartialEq, Eq, Structural)]
pub enum TimeUnit {
    Seconds,
    Minutes,
    Hours,
    Days,
}

impl TimeUnit {
    /// Milliseconds in one unit.
    pub open spec fn millis(self) -> nat {
        match self {
            TimeUnit::Seconds => 1_000,
            TimeUnit::Minutes => 60_000,
            TimeUnit::Hours => 3_600_000,
            TimeUnit::Days => 86_400_000,
        }
    }

    /// The unit's name as the configuration writes it, in the plural.
    pub open spec fn name(self) -> Seq<char> {
        match self {
            TimeUnit::Seconds => "seconds"@,
            TimeUnit::Minutes => "minutes"@,
            TimeUnit::Hours => "hours"@,
            TimeUnit::Days => "days"@,
        }
    }

    /// The name for exactly one unit: the plural without its last letter.
    pub open spec fn singular(self) -> Seq<char> {
        self.name().drop_last()
    }

    /// The unit that `s` names, letter for letter; `None` for any other text.
    pub open spec fn named(s: Seq<char>) -> Option<TimeUnit> {
        if s == "seconds"@ {
            Some(TimeUnit::Seconds)
        } else if s == "minutes"@ {
            Some(TimeUnit::Minutes)
        } else if s == "hours"@ {
            Some(TimeUnit::Hours)
        } else if s == "days"@ {
            Some(TimeUnit::Days)
        } else {
            None
        }
    }

    /// Milliseconds in one unit.
    pub fn factor_ms(self) -> (ms: u32)
        ensures
            ms == self.millis(),
    {
        match self {
            TimeUnit::Seconds => 1_000,
            TimeUnit::Minutes => 60_000,
            TimeUnit::Hours => 3_600_000,
            TimeUnit::Days => 86_400_000,
        }
    }

    /// The unit's name in the plural.
    pub fn as_str(self) -> (s: &'static str)
        ensures
            s@ == self.name(),
    {
        match self {
            TimeUnit::Seconds => "seconds",
            TimeUnit::Minutes => "minutes",
            TimeUnit::Hours => "hours",
            TimeUnit::Days => "days",
        }
    }

    /// The unit's name in the singular.
    pub fn singular_str(self) -> (s: &'static str)
        ensures
            s@ == self.singular(),
    {
        proof {
            reveal_strlit("seconds");
            reveal_strlit("minutes");
            reveal_strlit("hours");
            reveal_strlit("days");
            reveal_strlit("second");
            reveal_strlit("minute");
            reveal_strlit("hour");
            reveal_strlit("day");
        }
        match self {
            TimeUnit::Seconds => {
                assert("second"@ =~= "seconds"@.drop_last());
                "second"
            },
            TimeUnit::Minutes => {
                assert("minute"@ =~= "minutes"@.drop_last());
                "minute"
            },
            TimeUnit::Hours => {
                assert("hour"@ =~= "hours"@.drop_last());
                "hour"
            },
            TimeUnit::Days => {
                assert("day"@ =~= "days"@.drop_last());
                "day"
            },
        }
    }

    /// Reads a unit by its name. The name is matched as it stands: case and
    /// surrounding white space count.
    pub fn parse(s: &str) -> (r: Option<TimeUnit>)
        ensures
            r == Self::named(s@),
    {
        if same_text(s, "seconds") {
            Some(TimeUnit::Seconds)
        } else if same_text(s, "minutes") {
            Some(TimeUnit::Minutes)
        } else if same_text(s, "hours") {
            Some(TimeUnit::Hours)
        } else if same_text(s, "days") {
            Some(TimeUnit::Days)
        } else {
            None
        }
    }
}

/// Every unit is read back from its own name.
pub proof fn lemma_unit_name_round_trip(unit: TimeUnit)
    ensures
        TimeUnit::named(unit.name()) == Some(unit),
{
    reveal_strlit("seconds");
    reveal_strlit("minutes");
    reveal_strlit("hours");
    reveal_strlit("days");
    assert("seconds"@[0] == 's');
    assert("minutes"@[0] == 'm');
    assert("hours"@.len() == 5);
    assert("days"@.len() == 4);
}

} // verus!
