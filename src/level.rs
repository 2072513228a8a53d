use vstd::prelude::*;

verus! {

/// Severity of a log record, ordered from least to most severe.
#[derive(Clone, Copy, Debug, PartialEq, Eq, Structural)]
pub enum LogLevel {
    Debug,
    Info,
    Warning,
    Error,
    Critical,
}

/// A level name that is not one of the known ones.
#[derive(Clone, Debug)]
pub struct InvalidLevel {
    pub given: String,
}

/// What `str::to_lowercase` returns for `s`.
pub uninterp spec fn lower_of(s: Seq<char>) -> Seq<char>;

/// Relies on str::to_lowercase: its result depends on the characters alone.
#[verifier::external_body]
fn lowercase(s: &str) -> (r: String)
    ensures
        r@ == lower_of(s@),
{
    s.to_lowercase()
}

/// The level with a lower-case name, with `warn` and `crit` as short forms.
pub open spec fn level_named(s: Seq<char>) -> Option<LogLevel> {
    if s == "debug"@ {
        Some(LogLevel::Debug)
    } else if s == "info"@ {
        Some(LogLevel::Info)
    } else if s == "warning"@ || s == "warn"@ {
        Some(LogLevel::Warning)
    } else if s == "error"@ {
        Some(LogLevel::Error)
    } else if s == "critical"@ || s == "crit"@ {
        Some(LogLevel::Critical)
    } else {
        None
    }
}

impl LogLevel {
    /// Position of the level in the severity order.
    pub open spec fn rank(self) -> nat {
        match self {
            LogLevel::Debug => 0,
            LogLevel::Info => 1,
            LogLevel::Warning => 2,
            LogLevel::Error => 3,
            LogLevel::Critical => 4,
        }
    }

    pub fn severity(&self) -> (r: u8)
        ensures
            r as nat == self.rank(),
    {
        match self {
            LogLevel::Debug => 0,
            LogLevel::Info => 1,
            LogLevel::Warning => 2,
            LogLevel::Error => 3,
            LogLevel::Critical => 4,
        }
    }

    /// Whether a record at this level passes a filter set to `min`.
    pub fn at_least(&self, min: &LogLevel) -> (r: bool)
        ensures
            r == (self.rank() >= min.rank()),
    {
        self.severity() >= min.severity()
    }

    /// The level named by an already lower-cased name.
    pub fn from_lowercase(s: &str) -> (r: Option<LogLevel>)
        ensures
            r == level_named(s@),
    {
        let t = s.to_owned();
        if t == String::from_str("debug") {
            Some(LogLevel::Debug)
        } else if t == String::from_str("info") {
            Some(LogLevel::Info)
        } else if t == String::from_str("warning") || t == String::from_str("warn") {
            Some(LogLevel::Warning)
        } else if t == String::from_str("error") {
            Some(LogLevel::Error)
        } else if t == String::from_str("critical") || t == String::from_str("crit") {
            Some(LogLevel::Critical)
        } else {
            None
        }
    }

    /// The level named by `s` in any case.
    pub fn parse(s: &str) -> (r: Result<LogLevel, InvalidLevel>)
        ensures
            match r {
                Ok(l) => level_named(lower_of(s@)) == Some(l),
                Err(e) => level_named(lower_of(s@)) is None && e.given@ == s@,
            },
    {
        let low = lowercase(s);
        match LogLevel::from_lowercase(low.as_str()) {
            Some(l) => Ok(l),
            None => Err(InvalidLevel { given: s.to_owned() }),
        }
    }

    /// The level's name in capitals.
    pub fn as_str(&self) -> (r: &'static str)
        ensures
            r@ == level_word(*self),
    {
        match self {
            LogLevel::Debug => "DEBUG",
            LogLevel::Info => "INFO",
            LogLevel::Warning => "WARNING",
            LogLevel::Error => "ERROR",
            LogLevel::Critical => "CRITICAL",
        }
    }
}

pub open spec fn level_word(l: LogLevel) -> Seq<char> {
    match l {
        LogLevel::Debug => "DEBUG"@,
        LogLevel::Info => "INFO"@,
        LogLevel::Warning => "WARNING"@,
        LogLevel::Error => "ERROR"@,
        LogLevel::Critical => "CRITICAL"@,
    }
}

} // verus!
