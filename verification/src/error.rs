//! What can be wrong with the settings, and how each fault is reported.

use vstd::prelude::*;

verus! {

/// A key of the settings.
#[derive(Clone, Copy, Debug, PartialEq, Eq, Structural)]
pub enum Key {
    Categories,
    Daily,
    ResWidth,
    ResHeight,
    IntAmount,
    IntUnit,
}

impl Key {
    /// The key as the settings file writes it.
    pub open spec fn name(self) -> Seq<char> {
        match self {
            Key::Categories => "categories"@,
            Key::Daily => "daily"@,
            Key::ResWidth => "res_width"@,
            Key::ResHeight => "res_height"@,
            Key::IntAmount => "int_amount"@,
            Key::IntUnit => "int_unit"@,
        }
    }

    /// The key as the settings file writes it.
    pub fn as_str(self) -> (s: &'static str)
        ensures
            s@ == self.name(),
    {
        match self {
            Key::Categories => "categories",
            Key::Daily => "daily",
            Key::ResWidth => "res_width",
            Key::ResHeight => "res_height",
            Key::IntAmount => "int_amount",
            Key::IntUnit => "int_unit",
        }
    }
}

/// A fault in the settings, over plain text.
pub enum Fault {
    /// A required key has no value.
    MissingKey(Key),
    /// `daily` is neither `true` nor `false`.
    InvalidDaily,
    /// The value of the key is not a number of the kind the key takes.
    InvalidNumber(Key),
    /// The interval's unit, as given, is not one of the four units.
    InvalidUnit(Seq<char>),
    /// The interval does not fit in 32 bits of milliseconds.
    IntervalTooLong,
}

impl Fault {
    /// The line that reports the fault.
    pub open spec fn message(self) -> Seq<char> {
        match self {
            Fault::MissingKey(key) => "Config error: "@ + key.name() + " is missing."@,
            Fault::InvalidDaily => "Config error: daily must be true or false."@,
            Fault::InvalidNumber(key) => "Config error: "@ + key.name()
                + " must be a valid number."@,
            Fault::InvalidUnit(unit) => "Config error: \""@ + unit
                + "\" is not a valid time unit. Valid units: seconds, minutes, hours, days"@,
            Fault::IntervalTooLong => "Config error: interval must be shorter than 49 days"@,
        }
    }

    /// Whether the fault ends the run abnormally. A missing key does; a
    /// value that is there and wrong is reported, and the run ends in order.
    pub open spec fn is_fatal(self) -> bool {
        self is MissingKey
    }
}

/// A fault in the settings.
#[derive(Debug, PartialEq, Eq)]
pub enum ConfigError {
    /// A required key has no value.
    MissingKey(Key),
    /// `daily` is neither `true` nor `false`.
    InvalidDaily,
    /// The value of the key is not a number of the kind the key takes.
    InvalidNumber(Key),
    /// The interval's unit, as given, is not one of the four units.
    InvalidUnit(String),
    /// The interval does not fit in 32 bits of milliseconds.
    IntervalTooLong,
}

impl View for ConfigError {
    type V = Fault;

    open spec fn view(&self) -> Fault {
        match self {
            ConfigError::MissingKey(key) => Fault::MissingKey(*key),
            ConfigError::InvalidDaily => Fault::InvalidDaily,
            ConfigError::InvalidNumber(key) => Fault::InvalidNumber(*key),
            ConfigError::InvalidUnit(unit) => Fault::InvalidUnit(unit@),
            ConfigError::IntervalTooLong => Fault::IntervalTooLong,
        }
    }
}

impl ConfigError {
    /// The line that reports the fault.
    pub fn message(&self) -> (s: String)
        ensures
            s@ == self@.message(),
    {
        match self {
            ConfigError::MissingKey(key) => {
                let mut s = String::from_str("Config error: ");
                s.append(key.as_str());
                s.append(" is missing.");
                s
            },
            ConfigError::InvalidDaily => String::from_str(
                "Config error: daily must be true or false.",
            ),
            ConfigError::InvalidNumber(key) => {
                let mut s = String::from_str("Config error: ");
                s.append(key.as_str());
                s.append(" must be a valid number.");
                s
            },
            ConfigError::InvalidUnit(unit) => {
                let mut s = String::from_str("Config error: \"");
                s.append(unit.as_str());
                s.append(
                    "\" is not a valid time unit. Valid units: seconds, minutes, hours, days",
                );
                s
            },
            ConfigError::IntervalTooLong => String::from_str(
                "Config error: interval must be shorter than 49 days",
            ),
        }
    }

    /// Whether the fault ends the run abnormally.
    pub fn is_fatal(&self) -> (b: bool)
        ensures
            b == self@.is_fatal(),
    {
        match self {
            ConfigError::MissingKey(_) => true,
            _ => false,
        }
    }
}

} // verus!
