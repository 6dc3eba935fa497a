//! The line that tells, at the start, what the program is about to do.

use crate::amount::Decimal;
use crate::config::Config;
use crate::schedule::RunMode;
use crate::text::{append_joined, joined};
use crate::unit::TimeUnit;
use vstd::prelude::*;

verus! {

/// How the interval reads: the unit in the singular for an amount of
/// exactly one, and else the amount, a space and the unit in the plural.
pub open spec fn interval_phrase(amount: Decimal, unit: TimeUnit) -> Seq<char> {
    if amount.is_one() {
        unit.singular()
    } else {
        amount.text() + " "@ + unit.name()
    }
}

/// The plan in one line: a single photo or photos again and again, the
/// categories with `", "` between them under the word `category` for one
/// and `categories` for any other number, and for a repeating run the
/// interval.
pub open spec fn summary(
    categories: Seq<Seq<char>>,
    mode: RunMode,
    amount: Decimal,
    unit: TimeUnit,
) -> Seq<char> {
    let opening = match mode {
        RunMode::Once => "Pulling a single random photo from "@,
        RunMode::Repeating => "Pulling random photos from "@,
    };
    let noun = if categories.len() == 1 {
        "category "@
    } else {
        "categories "@
    };
    let pace = match mode {
        RunMode::Once => Seq::empty(),
        RunMode::Repeating => " every "@ + interval_phrase(amount, unit),
    };
    opening + noun + joined(categories, ", "@) + pace
}

/// The plan of a run with this configuration, in one line.
pub fn plan_summary(config: &Config, mode: RunMode) -> (line: String)
    ensures
        line@ == summary(config@.categories, mode, config@.int_amount, config@.int_unit),
{
    let mut line = match mode {
        RunMode::Once => String::from_str("Pulling a single random photo from "),
        RunMode::Repeating => String::from_str("Pulling random photos from "),
    };
    if config.categories.len() == 1 {
        line.append("category ");
    } else {
        line.append("categories ");
    }
    append_joined(&mut line, &config.categories, ", ");
    let ghost head = line@;
    match mode {
        RunMode::Once => {
            assert(head + Seq::<char>::empty() =~= head);
        },
        RunMode::Repeating => {
            line.append(" every ");
            if config.int_amount.is_one() {
                line.append(config.int_unit.singular_str());
            } else {
                let amount = config.int_amount.to_text();
                line.append(amount.as_str());
                line.append(" ");
                line.append(config.int_unit.as_str());
            }
            assert(line@ =~= head + (" every "@ + interval_phrase(
                config@.int_amount,
                config@.int_unit,
            )));
        },
    }
    line
}

} // verus!
