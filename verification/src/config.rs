//! The settings: from the raw values of the six keys to a checked
//! configuration, or to the faults that keep the program from starting.

use crate::amount::{decimal_text, Amount, Decimal};
use crate::error::{ConfigError, Fault, Key};
use crate::interval::{interval_ms, too_long, whole_millis};
use crate::text::{
    joined, lemma_join_undoes_split, parse_u16, same_text, split, split_text, trim, trimmed,
    u16_text, views,
};
use crate::unit::TimeUnit;
use vstd::prelude::*;

verus! {

/// What `daily` stands for: `true` or `false`, letter for letter. `None` for
/// any other text.
pub open spec fn flag_text(s: Seq<char>) -> Option<bool> {
    if s == "true"@ {
        Some(true)
    } else if s == "false"@ {
        Some(false)
    } else {
        None
    }
}

/// The text of an optional string.
pub open spec fn text_of(value: Option<String>) -> Option<Seq<char>> {
    match value {
        Some(s) => Some(s@),
        None => None,
    }
}

/// No fault, or the one fault, as a list.
pub open spec fn listed(fault: Option<Fault>) -> Seq<Fault> {
    match fault {
        Some(f) => seq![f],
        None => Seq::empty(),
    }
}

/// The views of a list of errors.
pub open spec fn fault_views(errors: Seq<ConfigError>) -> Seq<Fault> {
    Seq::new(errors.len(), |i: int| errors[i]@)
}

/// The raw values of the six keys, over plain text. `None` is a key without
/// a value.
pub struct RawText {
    pub categories: Option<Seq<char>>,
    pub daily: Option<Seq<char>>,
    pub res_width: Option<Seq<char>>,
    pub res_height: Option<Seq<char>>,
    pub int_amount: Option<Seq<char>>,
    pub int_unit: Option<Seq<char>>,
}

/// A checked configuration, over plain values.
pub struct Settings {
    pub categories: Seq<Seq<char>>,
    pub daily: bool,
    pub res_width: u16,
    pub res_height: u16,
    pub int_amount: Decimal,
    pub int_unit: TimeUnit,
    pub interval_ms: u32,
}

impl Settings {
    /// There is a category to choose from, and the interval is the amount
    /// in milliseconds, which 32 bits hold.
    pub open spec fn wf(self) -> bool {
        &&& self.categories.len() >= 1
        &&& self.int_amount.wf()
        &&& !too_long(self.int_amount, self.int_unit)
        &&& self.interval_ms == whole_millis(self.int_amount, self.int_unit)
    }
}

/// The fault of a key that takes a 16-bit number.
pub open spec fn dimension_fault(value: Option<Seq<char>>, key: Key) -> Option<Fault> {
    match value {
        None => Some(Fault::MissingKey(key)),
        Some(s) => if u16_text(trimmed(s)) is None {
            Some(Fault::InvalidNumber(key))
        } else {
            None
        },
    }
}

impl RawText {
    /// The fault of `categories`: only its absence. Any text is a list.
    pub open spec fn categories_fault(self) -> Option<Fault> {
        if self.categories is None {
            Some(Fault::MissingKey(Key::Categories))
        } else {
            None
        }
    }

    /// The fault of `daily`. The value is matched as it stands: white space
    /// around it makes it another value.
    pub open spec fn daily_fault(self) -> Option<Fault> {
        match self.daily {
            None => Some(Fault::MissingKey(Key::Daily)),
            Some(s) => if flag_text(s) is None {
                Some(Fault::InvalidDaily)
            } else {
                None
            },
        }
    }

    /// The fault of `res_width`.
    pub open spec fn width_fault(self) -> Option<Fault> {
        dimension_fault(self.res_width, Key::ResWidth)
    }

    /// The fault of `res_height`.
    pub open spec fn height_fault(self) -> Option<Fault> {
        dimension_fault(self.res_height, Key::ResHeight)
    }

    /// The fault of `int_amount`.
    pub open spec fn amount_fault(self) -> Option<Fault> {
        match self.int_amount {
            None => Some(Fault::MissingKey(Key::IntAmount)),
            Some(s) => if decimal_text(trimmed(s)) is None {
                Some(Fault::InvalidNumber(Key::IntAmount))
            } else {
                None
            },
        }
    }

    /// The fault of `int_unit`. The unit is matched as it stands, and the
    /// fault names it as it stands.
    pub open spec fn unit_fault(self) -> Option<Fault> {
        match self.int_unit {
            None => Some(Fault::MissingKey(Key::IntUnit)),
            Some(s) => if TimeUnit::named(s) is None {
                Some(Fault::InvalidUnit(s))
            } else {
                None
            },
        }
    }

    /// The fault of the interval: with a good amount and a good unit, their
    /// product is over the limit.
    pub open spec fn interval_fault(self) -> Option<Fault> {
        if self.amount_fault() is None && self.unit_fault() is None && too_long(
            self.amount(),
            self.unit(),
        ) {
            Some(Fault::IntervalTooLong)
        } else {
            None
        }
    }

    /// The categories: the value split at every `", "`.
    pub open spec fn category_list(self) -> Seq<Seq<char>> {
        split(self.categories->0, ", "@)
    }

    /// The amount that `int_amount` writes.
    pub open spec fn amount(self) -> Decimal {
        decimal_text(trimmed(self.int_amount->0))->0
    }

    /// The unit that `int_unit` names.
    pub open spec fn unit(self) -> TimeUnit {
        TimeUnit::named(self.int_unit->0)->0
    }

    /// Every fault of the settings, in the order of the checks: categories,
    /// daily, width, height, amount, unit, interval.
    pub open spec fn faults(self) -> Seq<Fault> {
        listed(self.categories_fault()) + listed(self.daily_fault()) + listed(self.width_fault())
            + listed(self.height_fault()) + listed(self.amount_fault()) + listed(
            self.unit_fault(),
        ) + listed(self.interval_fault())
    }

    /// The fault that the checks meet first, if any.
    pub open spec fn first_fault(self) -> Option<Fault> {
        if self.categories_fault() is Some {
            self.categories_fault()
        } else if self.daily_fault() is Some {
            self.daily_fault()
        } else if self.width_fault() is Some {
            self.width_fault()
        } else if self.height_fault() is Some {
            self.height_fault()
        } else if self.amount_fault() is Some {
            self.amount_fault()
        } else if self.unit_fault() is Some {
            self.unit_fault()
        } else {
            self.interval_fault()
        }
    }

    /// The configuration that the values stand for, where there is no fault.
    pub open spec fn settings(self) -> Settings {
        Settings {
            categories: self.category_list(),
            daily: flag_text(self.daily->0)->0,
            res_width: u16_text(trimmed(self.res_width->0))->0,
            res_height: u16_text(trimmed(self.res_height->0))->0,
            int_amount: self.amount(),
            int_unit: self.unit(),
            interval_ms: whole_millis(self.amount(), self.unit()) as u32,
        }
    }
}

/// The raw values of the six keys, as they stand in the `Settings` section.
/// `None` is a key without a value.
#[derive(Debug)]
pub struct RawSettings {
    pub categories: Option<String>,
    pub daily: Option<String>,
    pub res_width: Option<String>,
    pub res_height: Option<String>,
    pub int_amount: Option<String>,
    pub int_unit: Option<String>,
}

impl View for RawSettings {
    type V = RawText;

    open spec fn view(&self) -> RawText {
        RawText {
            categories: text_of(self.categories),
            daily: text_of(self.daily),
            res_width: text_of(self.res_width),
            res_height: text_of(self.res_height),
            int_amount: text_of(self.int_amount),
            int_unit: text_of(self.int_unit),
        }
    }
}

/// A checked configuration.
#[derive(Debug)]
pub struct Config {
    pub categories: Vec<String>,
    pub daily: bool,
    pub res_width: u16,
    pub res_height: u16,
    pub int_amount: Amount,
    pub int_unit: TimeUnit,
    pub interval_ms: u32,
}

impl View for Config {
    type V = Settings;

    open spec fn view(&self) -> Settings {
        Settings {
            categories: views(self.categories@),
            daily: self.daily,
            res_width: self.res_width,
            res_height: self.res_height,
            int_amount: self.int_amount@,
            int_unit: self.int_unit,
            interval_ms: self.interval_ms,
        }
    }
}

/// The file that holds the settings, in the working directory.
pub fn settings_file() -> (name: &'static str)
    ensures
        name@ == "autosplash.conf"@,
{
    "autosplash.conf"
}

/// The section of the file that holds the six keys.
pub fn settings_section() -> (name: &'static str)
    ensures
        name@ == "Settings"@,
{
    "Settings"
}

/// Reads `true` or `false`, letter for letter.
pub fn parse_flag(s: &str) -> (r: Option<bool>)
    ensures
        r == flag_text(s@),
{
    if same_text(s, "true") {
        Some(true)
    } else if same_text(s, "false") {
        Some(false)
    } else {
        None
    }
}

/// Splits the value of `categories` at every `", "`.
pub fn parse_categories(s: &str) -> (list: Vec<String>)
    ensures
        views(list@) == split(s@, ", "@),
        list.len() >= 1,
{
    split_text(s, ", ")
}

fn read_categories(raw: &RawSettings) -> (r: Result<Vec<String>, ConfigError>)
    ensures
        match r {
            Ok(list) => raw@.categories_fault() is None && views(list@) == raw@.category_list()
                && list.len() >= 1,
            Err(e) => raw@.categories_fault() == Some(e@),
        },
{
    match &raw.categories {
        None => Err(ConfigError::MissingKey(Key::Categories)),
        Some(s) => Ok(parse_categories(s.as_str())),
    }
}

fn read_daily(raw: &RawSettings) -> (r: Result<bool, ConfigError>)
    ensures
        match r {
            Ok(daily) => raw@.daily_fault() is None && Some(daily) == flag_text(raw@.daily->0),
            Err(e) => raw@.daily_fault() == Some(e@),
        },
{
    match &raw.daily {
        None => Err(ConfigError::MissingKey(Key::Daily)),
        Some(s) => match parse_flag(s.as_str()) {
            Some(daily) => Ok(daily),
            None => Err(ConfigError::InvalidDaily),
        },
    }
}

fn read_dimension(value: &Option<String>, key: Key) -> (r: Result<u16, ConfigError>)
    ensures
        match r {
            Ok(n) => dimension_fault(text_of(*value), key) is None && Some(n) == u16_text(
                trimmed(text_of(*value)->0),
            ),
            Err(e) => dimension_fault(text_of(*value), key) == Some(e@),
        },
{
    match value {
        None => Err(ConfigError::MissingKey(key)),
        Some(s) => {
            let t = trim(s.as_str());
            match parse_u16(t.as_str()) {
                Some(n) => Ok(n),
                None => Err(ConfigError::InvalidNumber(key)),
            }
        },
    }
}

fn read_amount(raw: &RawSettings) -> (r: Result<Amount, ConfigError>)
    ensures
        match r {
            Ok(amount) => raw@.amount_fault() is None && amount@ == raw@.amount() && amount@.wf(),
            Err(e) => raw@.amount_fault() == Some(e@),
        },
{
    match &raw.int_amount {
        None => Err(ConfigError::MissingKey(Key::IntAmount)),
        Some(s) => {
            let t = trim(s.as_str());
            match Amount::parse(t.as_str()) {
                Some(amount) => Ok(amount),
                None => Err(ConfigError::InvalidNumber(Key::IntAmount)),
            }
        },
    }
}

fn read_unit(raw: &RawSettings) -> (r: Result<TimeUnit, ConfigError>)
    ensures
        match r {
            Ok(unit) => raw@.unit_fault() is None && unit == raw@.unit(),
            Err(e) => raw@.unit_fault() == Some(e@),
        },
{
    match &raw.int_unit {
        None => Err(ConfigError::MissingKey(Key::IntUnit)),
        Some(s) => match TimeUnit::parse(s.as_str()) {
            Some(unit) => Ok(unit),
            None => Err(ConfigError::InvalidUnit(s.clone())),
        },
    }
}

/// Checks the settings in the order categories, daily, width, height,
/// amount, unit, interval, and stops at the first fault. Without a fault the
/// result is the configuration that the values stand for.
pub fn validate(raw: &RawSettings) -> (r: Result<Config, ConfigError>)
    ensures
        match r {
            Ok(config) => raw@.first_fault() is None && config@ == raw@.settings()
                && config@.wf(),
            Err(e) => raw@.first_fault() == Some(e@),
        },
{
    let categories = match read_categories(raw) {
        Ok(list) => list,
        Err(e) => {
            return Err(e);
        },
    };
    let daily = match read_daily(raw) {
        Ok(daily) => daily,
        Err(e) => {
            return Err(e);
        },
    };
    let res_width = match read_dimension(&raw.res_width, Key::ResWidth) {
        Ok(n) => n,
        Err(e) => {
            return Err(e);
        },
    };
    let res_height = match read_dimension(&raw.res_height, Key::ResHeight) {
        Ok(n) => n,
        Err(e) => {
            return Err(e);
        },
    };
    let int_amount = match read_amount(raw) {
        Ok(amount) => amount,
        Err(e) => {
            return Err(e);
        },
    };
    let int_unit = match read_unit(raw) {
        Ok(unit) => unit,
        Err(e) => {
            return Err(e);
        },
    };
    let interval = match interval_ms(&int_amount, int_unit) {
        Ok(ms) => ms,
        Err(e) => {
            return Err(e);
        },
    };
    Ok(
        Config {
            categories,
            daily,
            res_width,
            res_height,
            int_amount,
            int_unit,
            interval_ms: interval,
        },
    )
}

/// Puts the error of `checked`, if it is one, at the end of `errors`, and
/// hands on the value otherwise.
fn note<T>(errors: &mut Vec<ConfigError>, checked: Result<T, ConfigError>) -> (value: Option<T>)
    ensures
        match checked {
            Ok(v) => value == Some(v) && fault_views(final(errors)@) == fault_views(
                old(errors)@,
            ),
            Err(e) => value is None && fault_views(final(errors)@) == fault_views(old(errors)@)
                + seq![e@],
        },
{
    match checked {
        Ok(v) => Some(v),
        Err(e) => {
            errors.push(e);
            assert(fault_views(errors@) =~= fault_views(old(errors)@) + seq![e@]);
            None
        },
    }
}

/// Checks every key whatever the others hold, and lists all the faults in
/// the order of the checks. The interval is checked where amount and unit
/// are both good.
pub fn validation_errors(raw: &RawSettings) -> (errors: Vec<ConfigError>)
    ensures
        fault_views(errors@) == raw@.faults(),
{
    let mut errors: Vec<ConfigError> = Vec::new();
    assert(fault_views(errors@) =~= Seq::<Fault>::empty());
    let _ = note(&mut errors, read_categories(raw));
    let _ = note(&mut errors, read_daily(raw));
    let _ = note(&mut errors, read_dimension(&raw.res_width, Key::ResWidth));
    let _ = note(&mut errors, read_dimension(&raw.res_height, Key::ResHeight));
    let amount = note(&mut errors, read_amount(raw));
    let unit = note(&mut errors, read_unit(raw));
    let ghost upto_unit = fault_views(errors@);
    assert(upto_unit =~= listed(raw@.categories_fault()) + listed(raw@.daily_fault()) + listed(
        raw@.width_fault(),
    ) + listed(raw@.height_fault()) + listed(raw@.amount_fault()) + listed(raw@.unit_fault()));
    if let Some(a) = amount {
        if let Some(u) = unit {
            let _ = note(&mut errors, interval_ms(&a, u));
        }
    }
    assert(fault_views(errors@) =~= upto_unit + listed(raw@.interval_fault()));
    errors
}

/// The settings are refused exactly where a check finds a fault, and the
/// fault that refuses them is the first of the list of all faults.
pub proof fn lemma_first_fault_heads_faults(raw: RawText)
    ensures
        raw.first_fault() is None <==> raw.faults().len() == 0,
        raw.first_fault() matches Some(f) ==> raw.faults()[0] == f,
{
}

/// The categories, written with `", "` between them, read as the value of
/// `categories` did.
pub proof fn lemma_categories_read_as_written(raw: RawText)
    requires
        raw.categories is Some,
    ensures
        raw.category_list().len() >= 1,
        joined(raw.category_list(), ", "@) == raw.categories->0,
{
    lemma_join_undoes_split(raw.categories->0, ", "@);
}

/// `daily` passes exactly where it is `true` or `false`, letter for letter
/// and with nothing around it. With any other value the settings are
/// refused, so that no configuration comes of them.
pub proof fn lemma_daily_true_or_false(raw: RawText)
    requires
        raw.daily is Some,
    ensures
        raw.daily_fault() is None <==> raw.daily->0 == "true"@ || raw.daily->0 == "false"@,
        raw.daily_fault() is Some ==> raw.daily_fault() == Some(Fault::InvalidDaily),
        raw.daily_fault() is Some ==> raw.first_fault() is Some,
        flag_text("true"@) == Some(true),
        flag_text("false"@) == Some(false),
{
    reveal_strlit("true");
    reveal_strlit("false");
    assert("true"@.len() == 4);
    assert("false"@.len() == 5);
}

/// A unit that is none of the four names is refused under the name it came
/// with, in a message that lists the four, and no configuration comes of the
/// settings.
pub proof fn lemma_unknown_unit_is_named(raw: RawText)
    requires
        raw.int_unit matches Some(unit) && unit != "seconds"@ && unit != "minutes"@ && unit
            != "hours"@ && unit != "days"@,
    ensures
        raw.unit_fault() == Some(Fault::InvalidUnit(raw.int_unit->0)),
        raw.first_fault() is Some,
        Fault::InvalidUnit(raw.int_unit->0).message() == "Config error: \""@ + raw.int_unit->0
            + "\" is not a valid time unit. Valid units: seconds, minutes, hours, days"@,
{
}

} // verus!
