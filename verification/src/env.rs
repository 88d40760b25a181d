//! The service's configuration, read from named variables.

use crate::mods::ModRefreshOptions;
use crate::text::same_text;
use vstd::hash_map::StringHashMap;
use vstd::prelude::*;
use vstd::string::StringExecFns;
use vstd::string::StrSliceExecFns;

verus! {

/// A variable of the configuration.
#[derive(Debug, Clone, Copy, PartialEq, Eq, Structural)]
pub enum Variable {
    Port,
    LogLevel,
    SqlChunkSize,
    ModRefresh,
    ModImportIntervalHours,
    DbUrl,
}

impl Variable {
    /// The name under which the variable is looked up.
    pub open spec fn name(self) -> Seq<char> {
        match self {
            Variable::Port => "PORT"@,
            Variable::LogLevel => "LOG_LEVEL"@,
            Variable::SqlChunkSize => "SQL_CHUNK_SIZE"@,
            Variable::ModRefresh => "MOD_REFRESH"@,
            Variable::ModImportIntervalHours => "MOD_IMPORT_INTERVAL_HOURS"@,
            Variable::DbUrl => "DB_URL"@,
        }
    }

    /// The name under which the variable is looked up.
    pub fn as_str(&self) -> (name: &'static str)
        ensures
            name@ == self.name(),
    {
        match self {
            Variable::Port => "PORT",
            Variable::LogLevel => "LOG_LEVEL",
            Variable::SqlChunkSize => "SQL_CHUNK_SIZE",
            Variable::ModRefresh => "MOD_REFRESH",
            Variable::ModImportIntervalHours => "MOD_IMPORT_INTERVAL_HOURS",
            Variable::DbUrl => "DB_URL",
        }
    }
}

/// How much the service logs.
#[derive(Debug, Clone, Copy, PartialEq, Eq, Structural)]
pub enum LogLevel {
    Off,
    Error,
    Warn,
    Info,
    Debug,
    Trace,
}

/// Why the configuration is refused.
#[derive(Debug)]
pub enum EnvError {
    /// The variable is not set.
    Missing(Variable),
    /// The variable's value is not a number that fits.
    InvalidNumber(Variable, String),
    /// The chunk size is zero.
    ZeroChunkSize,
    /// The value is no log level.
    InvalidLogLevel(String),
    /// The value is no refresh mode.
    InvalidRefreshOption(String),
}

/// What an `EnvError` holds.
pub enum EnvErrorView {
    Missing(Variable),
    InvalidNumber(Variable, Seq<char>),
    ZeroChunkSize,
    InvalidLogLevel(Seq<char>),
    InvalidRefreshOption(Seq<char>),
}

impl View for EnvError {
    type V = EnvErrorView;

    open spec fn view(&self) -> EnvErrorView {
        match self {
            EnvError::Missing(variable) => EnvErrorView::Missing(*variable),
            EnvError::InvalidNumber(variable, value) => EnvErrorView::InvalidNumber(
                *variable,
                value@,
            ),
            EnvError::ZeroChunkSize => EnvErrorView::ZeroChunkSize,
            EnvError::InvalidLogLevel(value) => EnvErrorView::InvalidLogLevel(value@),
            EnvError::InvalidRefreshOption(value) => EnvErrorView::InvalidRefreshOption(value@),
        }
    }
}

impl EnvErrorView {
    /// The message for the operator: it names the variable, and the value
    /// where one was given.
    pub open spec fn message(self) -> Seq<char> {
        match self {
            EnvErrorView::Missing(variable) => "Missing .env variable: "@ + variable.name(),
            EnvErrorView::InvalidNumber(variable, value) => if variable
                == Variable::ModImportIntervalHours {
                variable.name() + " is not a valid number: '"@ + value + "'"@
            } else {
                "Can't convert "@ + variable.name() + " to number: '"@ + value + "'"@
            },
            EnvErrorView::ZeroChunkSize => "SQL_CHUNK_SIZE can't be zero"@,
            EnvErrorView::InvalidLogLevel(value) => "Not a valid log level: '"@ + value
                + "'. Allowed values are: OFF, ERROR, WARN, INFO, DEBUG, TRACE"@,
            EnvErrorView::InvalidRefreshOption(value) => "Not a valid mod refresh option: '"@
                + value + "'. Allowed values are: download-if-expired, cache-only, none"@,
        }
    }
}

impl EnvError {
    /// The message for the operator.
    pub fn message(&self) -> (text: String)
        ensures
            text@ == self@.message(),
    {
        match self {
            EnvError::Missing(variable) => {
                let mut text = String::from_str("Missing .env variable: ");
                text.append(variable.as_str());
                text
            },
            EnvError::InvalidNumber(variable, value) => {
                if *variable == Variable::ModImportIntervalHours {
                    let mut text = String::from_str(variable.as_str());
                    text.append(" is not a valid number: '");
                    text.append(value.as_str());
                    text.append("'");
                    text
                } else {
                    let mut text = String::from_str("Can't convert ");
                    text.append(variable.as_str());
                    text.append(" to number: '");
                    text.append(value.as_str());
                    text.append("'");
                    text
                }
            },
            EnvError::ZeroChunkSize => String::from_str("SQL_CHUNK_SIZE can't be zero"),
            EnvError::InvalidLogLevel(value) => {
                let mut text = String::from_str("Not a valid log level: '");
                text.append(value.as_str());
                text.append("'. Allowed values are: OFF, ERROR, WARN, INFO, DEBUG, TRACE");
                text
            },
            EnvError::InvalidRefreshOption(value) => {
                let mut text = String::from_str("Not a valid mod refresh option: '");
                text.append(value.as_str());
                text.append("'. Allowed values are: download-if-expired, cache-only, none");
                text
            },
        }
    }
}

/// The value of the decimal digit `c`.
pub open spec fn digit_value(c: char) -> Option<nat> {
    if c == '0' {
        Some(0)
    } else if c == '1' {
        Some(1)
    } else if c == '2' {
        Some(2)
    } else if c == '3' {
        Some(3)
    } else if c == '4' {
        Some(4)
    } else if c == '5' {
        Some(5)
    } else if c == '6' {
        Some(6)
    } else if c == '7' {
        Some(7)
    } else if c == '8' {
        Some(8)
    } else if c == '9' {
        Some(9)
    } else {
        None
    }
}

/// The number that `text` writes in decimal digits, where it holds nothing
/// else and at least one digit.
pub open spec fn digits_value(text: Seq<char>) -> Option<nat>
    decreases text.len(),
{
    if text.len() == 0 {
        None
    } else if text.len() == 1 {
        digit_value(text[0])
    } else {
        match (digits_value(text.drop_last()), digit_value(text.last())) {
            (Some(value), Some(digit)) => Some(value * 10 + digit),
            _ => None,
        }
    }
}

/// The number that `text` writes: decimal digits, after a plus sign or
/// without one, and at most `max`.
pub open spec fn unsigned_value(text: Seq<char>, max: nat) -> Option<nat> {
    let digits = if text.len() > 0 && text[0] == '+' {
        text.drop_first()
    } else {
        text
    };
    match digits_value(digits) {
        Some(value) => if value <= max {
            Some(value)
        } else {
            None
        },
        None => None,
    }
}

/// A number is no smaller than the number that its first digits write.
proof fn lemma_digits_grow(text: Seq<char>, upto: int)
    requires
        1 <= upto <= text.len(),
        digits_value(text) is Some,
    ensures
        digits_value(text.take(upto)) is Some,
        digits_value(text.take(upto))->Some_0 <= digits_value(text)->Some_0,
    decreases text.len() - upto,
{
    if upto == text.len() {
        assert(text.take(upto) =~= text);
    } else {
        assert(text.len() >= 2);
        let front = text.drop_last();
        assert(front.take(upto) =~= text.take(upto));
        lemma_digits_grow(front, upto);
    }
}

/// The value of the decimal digit `c`, if it is one.
fn digit_of(c: char) -> (digit: Option<u64>)
    ensures
        digit is Some <==> digit_value(c) is Some,
        digit matches Some(d) ==> digit_value(c) == Some(d as nat) && d <= 9,
{
    if c == '0' {
        Some(0)
    } else if c == '1' {
        Some(1)
    } else if c == '2' {
        Some(2)
    } else if c == '3' {
        Some(3)
    } else if c == '4' {
        Some(4)
    } else if c == '5' {
        Some(5)
    } else if c == '6' {
        Some(6)
    } else if c == '7' {
        Some(7)
    } else if c == '8' {
        Some(8)
    } else if c == '9' {
        Some(9)
    } else {
        None
    }
}

/// Reads a number in decimal digits, after a plus sign or without one, and
/// at most `max`.
pub fn parse_unsigned(text: &str, max: u64) -> (number: Option<u64>)
    ensures
        match number {
            Some(n) => unsigned_value(text@, max as nat) == Some(n as nat),
            None => unsigned_value(text@, max as nat) is None,
        },
{
    let len = text.unicode_len();
    let start: usize = if len > 0 && text.get_char(0) == '+' {
        1
    } else {
        0
    };
    let ghost digits = if start == 1 {
        text@.drop_first()
    } else {
        text@
    };
    if start >= len {
        proof {
            assert(digits.len() == 0);
        }
        return None;
    }
    let mut value: u64 = 0;
    let mut i: usize = start;
    while i < len
        invariant
            start <= i <= len,
            len == text@.len(),
            digits.len() == len - start,
            digits == if text@.len() > 0 && text@[0] == '+' {
                text@.drop_first()
            } else {
                text@
            },
            forall|k: int| 0 <= k < digits.len() ==> digits[k] == text@[start + k],
            value <= max,
            i == start ==> value == 0,
            i > start ==> digits_value(digits.take(i - start)) == Some(value as nat),
        decreases len - i,
    {
        let c = text.get_char(i);
        let ghost upto = i - start + 1;
        proof {
            let read = digits.take(upto);
            assert(read.drop_last() =~= digits.take(upto - 1));
            assert(read.last() == c);
            assert(read.len() == upto);
            assert(read[0] == digits[0]);
            assert(digits_value(read) == match digit_value(c) {
                Some(digit) => Some((value * 10 + digit) as nat),
                None => None,
            });
        }
        match digit_of(c) {
            Some(d) => {
                if d > max || value > (max - d) / 10 {
                    proof {
                        // The digits read so far already write more than the
                        // most that is accepted.
                        assert(value * 10 + d > max);
                        if digits_value(digits) is Some {
                            lemma_digits_grow(digits, upto as int);
                        }
                    }
                    return None;
                }
                value = value * 10 + d;
            },
            None => {
                proof {
                    if digits_value(digits) is Some {
                        lemma_digits_grow(digits, upto as int);
                    }
                }
                return None;
            },
        }
        i += 1;
    }
    proof {
        assert(digits.take(len - start) =~= digits);
    }
    Some(value)
}

/// Whether `a` and `b` are one character, or one ASCII letter in its two
/// cases.
pub open spec fn same_letter(a: char, b: char) -> bool {
    ||| a == b
    ||| (65 <= a as u32 <= 90 && b as u32 == a as u32 + 32)
    ||| (97 <= a as u32 <= 122 && b as u32 + 32 == a as u32)
}

/// Whether the two texts are equal but for the case of ASCII letters.
pub open spec fn same_ignoring_case(a: Seq<char>, b: Seq<char>) -> bool {
    a.len() == b.len() && forall|i: int| 0 <= i < a.len() ==> same_letter(a[i], b[i])
}

/// The log level that `text` names, whatever the case of its letters.
pub open spec fn level_named(text: Seq<char>) -> Option<LogLevel> {
    if same_ignoring_case("OFF"@, text) {
        Some(LogLevel::Off)
    } else if same_ignoring_case("ERROR"@, text) {
        Some(LogLevel::Error)
    } else if same_ignoring_case("WARN"@, text) {
        Some(LogLevel::Warn)
    } else if same_ignoring_case("INFO"@, text) {
        Some(LogLevel::Info)
    } else if same_ignoring_case("DEBUG"@, text) {
        Some(LogLevel::Debug)
    } else if same_ignoring_case("TRACE"@, text) {
        Some(LogLevel::Trace)
    } else {
        None
    }
}

/// Calls `log::LevelFilter`'s `from_str`, which takes the first of the names
/// OFF, ERROR, WARN, INFO, DEBUG, TRACE that equals the text but for the case
/// of ASCII letters, and fails where none does.
#[verifier::external_body]
pub(crate) fn level_filter_from_str(text: &str) -> (level: Option<LogLevel>)
    ensures
        level == level_named(text@),
{
    let parsed: Result<log::LevelFilter, log::ParseLevelError> = std::str::FromStr::from_str(text);
    match parsed {
        Ok(log::LevelFilter::Off) => Some(LogLevel::Off),
        Ok(log::LevelFilter::Error) => Some(LogLevel::Error),
        Ok(log::LevelFilter::Warn) => Some(LogLevel::Warn),
        Ok(log::LevelFilter::Info) => Some(LogLevel::Info),
        Ok(log::LevelFilter::Debug) => Some(LogLevel::Debug),
        Ok(log::LevelFilter::Trace) => Some(LogLevel::Trace),
        Err(_) => None,
    }
}

/// The value of `variable`, if it is set.
pub open spec fn value_of(vars: Map<Seq<char>, String>, variable: Variable) -> Option<Seq<char>> {
    if vars.contains_key(variable.name()) {
        Some(vars[variable.name()]@)
    } else {
        None
    }
}

/// Whether `got` is what `expected` says, error for error.
pub open spec fn agrees<T>(got: Result<T, EnvError>, expected: Result<T, EnvErrorView>) -> bool {
    match got {
        Ok(value) => expected == Ok::<T, EnvErrorView>(value),
        Err(error) => expected == Err::<T, EnvErrorView>(error@),
    }
}

/// The number that `variable` must hold, at most `max`.
pub open spec fn number_of(vars: Map<Seq<char>, String>, variable: Variable, max: nat) -> Result<
    nat,
    EnvErrorView,
> {
    match value_of(vars, variable) {
        None => Err(EnvErrorView::Missing(variable)),
        Some(text) => match unsigned_value(text, max) {
            Some(number) => Ok(number),
            None => Err(EnvErrorView::InvalidNumber(variable, text)),
        },
    }
}

/// The port that the configuration names.
pub open spec fn port_of(vars: Map<Seq<char>, String>) -> Result<u16, EnvErrorView> {
    match number_of(vars, Variable::Port, u16::MAX as nat) {
        Ok(number) => Ok(number as u16),
        Err(error) => Err(error),
    }
}

/// The log level that the configuration names.
pub open spec fn log_level_of(vars: Map<Seq<char>, String>) -> Result<LogLevel, EnvErrorView> {
    match value_of(vars, Variable::LogLevel) {
        None => Err(EnvErrorView::Missing(Variable::LogLevel)),
        Some(text) => match level_named(text) {
            Some(level) => Ok(level),
            None => Err(EnvErrorView::InvalidLogLevel(text)),
        },
    }
}

/// The chunk size that the configuration names: a number above zero.
pub open spec fn chunk_size_of(vars: Map<Seq<char>, String>) -> Result<usize, EnvErrorView> {
    match number_of(vars, Variable::SqlChunkSize, usize::MAX as nat) {
        Ok(number) => if number == 0 {
            Err(EnvErrorView::ZeroChunkSize)
        } else {
            Ok(number as usize)
        },
        Err(error) => Err(error),
    }
}

/// The expiration window in seconds, where the configuration names one in
/// hours; a number of hours whose seconds do not fit is no number.
pub open spec fn interval_of(vars: Map<Seq<char>, String>) -> Result<Option<u64>, EnvErrorView> {
    match value_of(vars, Variable::ModImportIntervalHours) {
        None => Ok(None),
        Some(text) => match unsigned_value(text, (u64::MAX / 3600) as nat) {
            Some(hours) => Ok(Some((hours * 3600) as u64)),
            None => Err(EnvErrorView::InvalidNumber(Variable::ModImportIntervalHours, text)),
        },
    }
}

/// The refresh mode that the configuration names: `none`, or `cache-only` or
/// `download-if-expired` with the expiration window. The window is looked at before
/// the mode, so a window that is no number is refused in every mode.
pub open spec fn refresh_of(vars: Map<Seq<char>, String>) -> Result<
    ModRefreshOptions,
    EnvErrorView,
> {
    match value_of(vars, Variable::ModRefresh) {
        None => Err(EnvErrorView::Missing(Variable::ModRefresh)),
        Some(mode) => match interval_of(vars) {
            Err(error) => Err(error),
            Ok(window) => if mode == "none"@ {
                Ok(ModRefreshOptions::NoRefresh)
            } else if mode == "cache-only"@ {
                match window {
                    Some(seconds) => Ok(ModRefreshOptions::CacheOnly(seconds)),
                    None => Err(EnvErrorView::Missing(Variable::ModImportIntervalHours)),
                }
            } else if mode == "download-if-expired"@ {
                match window {
                    Some(seconds) => Ok(ModRefreshOptions::DownloadIfExpired(seconds)),
                    None => Err(EnvErrorView::Missing(Variable::ModImportIntervalHours)),
                }
            } else {
                Err(EnvErrorView::InvalidRefreshOption(mode))
            },
        },
    }
}

/// Reads the number that `variable` must hold, at most `max`.
fn number(vars: &StringHashMap<String>, variable: Variable, max: u64) -> (number: Result<
    u64,
    EnvError,
>)
    ensures
        match number {
            Ok(n) => number_of(vars@, variable, max as nat) == Ok::<nat, EnvErrorView>(n as nat),
            Err(e) => number_of(vars@, variable, max as nat) == Err::<nat, EnvErrorView>(e@),
        },
{
    match vars.get(variable.as_str()) {
        None => Err(EnvError::Missing(variable)),
        Some(text) => match parse_unsigned(text.as_str(), max) {
            Some(n) => Ok(n),
            None => Err(EnvError::InvalidNumber(variable, text.clone())),
        },
    }
}

/// Reads the network port.
pub fn port(vars: &StringHashMap<String>) -> (port: Result<u16, EnvError>)
    ensures
        agrees(port, port_of(vars@)),
{
    match number(vars, Variable::Port, 0xffff) {
        Ok(n) => Ok(n as u16),
        Err(e) => Err(e),
    }
}

/// Reads the log level.
pub fn log_level(vars: &StringHashMap<String>) -> (level: Result<LogLevel, EnvError>)
    ensures
        agrees(level, log_level_of(vars@)),
{
    match vars.get(Variable::LogLevel.as_str()) {
        None => Err(EnvError::Missing(Variable::LogLevel)),
        Some(text) => match level_filter_from_str(text.as_str()) {
            Some(level) => Ok(level),
            None => Err(EnvError::InvalidLogLevel(text.clone())),
        },
    }
}

/// Reads the number of rows that one statement of an import may hold.
pub fn chunk_size(vars: &StringHashMap<String>) -> (size: Result<usize, EnvError>)
    ensures
        agrees(size, chunk_size_of(vars@)),
        size matches Ok(n) ==> n > 0,
{
    match number(vars, Variable::SqlChunkSize, usize::MAX as u64) {
        Ok(n) => {
            if n == 0 {
                Err(EnvError::ZeroChunkSize)
            } else {
                Ok(n as usize)
            }
        },
        Err(e) => Err(e),
    }
}

/// Reads the refresh mode and, where it asks for one, the expiration window.
pub fn mod_refresh_options(vars: &StringHashMap<String>) -> (options: Result<
    ModRefreshOptions,
    EnvError,
>)
    ensures
        agrees(options, refresh_of(vars@)),
{
    let mode = match vars.get(Variable::ModRefresh.as_str()) {
        None => {
            return Err(EnvError::Missing(Variable::ModRefresh));
        },
        Some(mode) => mode,
    };
    let window: Option<u64> = match vars.get(Variable::ModImportIntervalHours.as_str()) {
        None => None,
        Some(text) => match parse_unsigned(text.as_str(), u64::MAX / 3600) {
            Some(hours) => Some(hours * 3600),
            None => {
                return Err(
                    EnvError::InvalidNumber(Variable::ModImportIntervalHours, text.clone()),
                );
            },
        },
    };
    if same_text(mode.as_str(), "none") {
        Ok(ModRefreshOptions::NoRefresh)
    } else if same_text(mode.as_str(), "cache-only") {
        match window {
            Some(seconds) => Ok(ModRefreshOptions::CacheOnly(seconds)),
            None => Err(EnvError::Missing(Variable::ModImportIntervalHours)),
        }
    } else if same_text(mode.as_str(), "download-if-expired") {
        match window {
            Some(seconds) => Ok(ModRefreshOptions::DownloadIfExpired(seconds)),
            None => Err(EnvError::Missing(Variable::ModImportIntervalHours)),
        }
    } else {
        Err(EnvError::InvalidRefreshOption(mode.clone()))
    }
}

/// Reads the connection string of the store.
pub fn db_url(vars: &StringHashMap<String>) -> (url: Result<String, EnvError>)
    ensures
        match url {
            Ok(text) => value_of(vars@, Variable::DbUrl) == Some(text@),
            Err(e) => value_of(vars@, Variable::DbUrl) is None && e@ == EnvErrorView::Missing(
                Variable::DbUrl,
            ),
        },
{
    match vars.get(Variable::DbUrl.as_str()) {
        None => Err(EnvError::Missing(Variable::DbUrl)),
        Some(text) => Ok(text.clone()),
    }
}

/// The configuration of the service.
#[derive(Debug, Clone)]
pub struct Env {
    pub port: u16,
    pub log_level: LogLevel,
    pub sql_chunk_size: usize,
    pub mod_refresh_options: ModRefreshOptions,
    pub db_url: String,
}

/// The first thing that `vars` lacks to be a configuration, the variables
/// taken in the order port, log level, chunk size, refresh mode, connection
/// string.
pub open spec fn first_error(vars: Map<Seq<char>, String>) -> Option<EnvErrorView> {
    if port_of(vars) is Err {
        Some(port_of(vars)->Err_0)
    } else if log_level_of(vars) is Err {
        Some(log_level_of(vars)->Err_0)
    } else if chunk_size_of(vars) is Err {
        Some(chunk_size_of(vars)->Err_0)
    } else if refresh_of(vars) is Err {
        Some(refresh_of(vars)->Err_0)
    } else if value_of(vars, Variable::DbUrl) is None {
        Some(EnvErrorView::Missing(Variable::DbUrl))
    } else {
        None
    }
}

impl Env {
    /// Reads the configuration from the variables; refused with the first
    /// thing that is missing or wrong.
    pub fn load(vars: &StringHashMap<String>) -> (env: Result<Env, EnvError>)
        ensures
            match env {
                Ok(e) => {
                    &&& first_error(vars@) is None
                    &&& port_of(vars@) == Ok::<u16, EnvErrorView>(e.port)
                    &&& log_level_of(vars@) == Ok::<LogLevel, EnvErrorView>(e.log_level)
                    &&& chunk_size_of(vars@) == Ok::<usize, EnvErrorView>(e.sql_chunk_size)
                    &&& refresh_of(vars@) == Ok::<ModRefreshOptions, EnvErrorView>(
                        e.mod_refresh_options,
                    )
                    &&& value_of(vars@, Variable::DbUrl) == Some(e.db_url@)
                    &&& e.sql_chunk_size > 0
                },
                Err(e) => first_error(vars@) == Some(e@),
            },
    {
        let port = match port(vars) {
            Ok(port) => port,
            Err(e) => {
                return Err(e);
            },
        };
        let log_level = match log_level(vars) {
            Ok(level) => level,
            Err(e) => {
                return Err(e);
            },
        };
        let sql_chunk_size = match chunk_size(vars) {
            Ok(size) => size,
            Err(e) => {
                return Err(e);
            },
        };
        let mod_refresh_options = match mod_refresh_options(vars) {
            Ok(options) => options,
            Err(e) => {
                return Err(e);
            },
        };
        let db_url = match db_url(vars) {
            Ok(url) => url,
            Err(e) => {
                return Err(e);
            },
        };
        Ok(Env { port, log_level, sql_chunk_size, mod_refresh_options, db_url })
    }
}

/// The variables that the pairs of name and value set; of two pairs with one
/// name the later stands.
pub open spec fn bindings(pairs: Seq<(String, String)>) -> Map<Seq<char>, String>
    decreases pairs.len(),
{
    if pairs.len() == 0 {
        Map::empty()
    } else {
        bindings(pairs.drop_last()).insert(pairs.last().0@, pairs.last().1)
    }
}

/// Collects variables from pairs of name and value.
pub fn variables(pairs: &Vec<(String, String)>) -> (vars: StringHashMap<String>)
    ensures
        vars@ == bindings(pairs@),
{
    let mut vars: StringHashMap<String> = StringHashMap::new();
    let mut i: usize = 0;
    while i < pairs.len()
        invariant
            i <= pairs@.len(),
            vars@ == bindings(pairs@.take(i as int)),
        decreases pairs@.len() - i,
    {
        proof {
            assert(pairs@.take(i + 1).drop_last() == pairs@.take(i as int));
        }
        vars.insert(pairs[i].0.clone(), pairs[i].1.clone());
        i += 1;
    }
    proof {
        assert(pairs@.take(i as int) == pairs@);
    }
    vars
}

} // verus!
