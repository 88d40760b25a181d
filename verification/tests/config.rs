use lcmt::env::{
    chunk_size, db_url, log_level, mod_refresh_options, parse_unsigned, port, variables, Env,
    EnvError, LogLevel, Variable,
};
use lcmt::mods::ModRefreshOptions;

fn vars(pairs: Vec<(&str, &str)>) -> Vec<(String, String)> {
    pairs.into_iter().map(|(k, v)| (k.to_string(), v.to_string())).collect()
}

fn complete() -> Vec<(&'static str, &'static str)> {
    vec![
        ("PORT", "8080"),
        ("LOG_LEVEL", "info"),
        ("SQL_CHUNK_SIZE", "150"),
        ("MOD_REFRESH", "download-if-expired"),
        ("MOD_IMPORT_INTERVAL_HOURS", "24"),
        ("DB_URL", "postgres://localhost/mods"),
    ]
}

fn without(name: &str) -> Vec<(String, String)> {
    vars(complete().into_iter().filter(|(k, _)| *k != name).collect())
}

fn with(name: &str, value: &str) -> Vec<(String, String)> {
    let mut pairs = without(name);
    pairs.push((name.to_string(), value.to_string()));
    pairs
}

#[test]
fn a_complete_configuration_loads() {
    let env = Env::load(&variables(&vars(complete()))).unwrap();
    assert_eq!(env.port, 8080);
    assert_eq!(env.log_level, LogLevel::Info);
    assert_eq!(env.sql_chunk_size, 150);
    assert_eq!(env.mod_refresh_options, ModRefreshOptions::DownloadIfExpired(24 * 60 * 60));
    assert_eq!(env.db_url, "postgres://localhost/mods");
}

#[test]
fn the_port_must_be_a_number_that_fits() {
    assert_eq!(port(&variables(&with("PORT", "0"))).unwrap(), 0);
    assert_eq!(port(&variables(&with("PORT", "65535"))).unwrap(), 65535);
    assert_eq!(port(&variables(&with("PORT", "+80"))).unwrap(), 80);
    assert_eq!(port(&variables(&with("PORT", "0080"))).unwrap(), 80);
    for bad in ["65536", "-1", "", "+", "80 ", " 80", "8_0", "0x50", "eighty", "99999999999999999999999"] {
        let error = port(&variables(&with("PORT", bad))).unwrap_err();
        assert!(matches!(&error, EnvError::InvalidNumber(Variable::Port, value) if value == bad));
        assert_eq!(error.message(), format!("Can't convert PORT to number: '{bad}'"));
    }
    let error = port(&variables(&without("PORT"))).unwrap_err();
    assert!(matches!(error, EnvError::Missing(Variable::Port)));
    assert_eq!(error.message(), "Missing .env variable: PORT");
}

#[test]
fn the_log_level_is_named_in_any_case() {
    let cases = [
        ("off", LogLevel::Off),
        ("ERROR", LogLevel::Error),
        ("Warn", LogLevel::Warn),
        ("iNfO", LogLevel::Info),
        ("debug", LogLevel::Debug),
        ("TRACE", LogLevel::Trace),
    ];
    for (text, level) in cases {
        assert_eq!(log_level(&variables(&with("LOG_LEVEL", text))).unwrap(), level);
    }
    for bad in ["", "warning", "info ", "4"] {
        let error = log_level(&variables(&with("LOG_LEVEL", bad))).unwrap_err();
        assert!(matches!(&error, EnvError::InvalidLogLevel(value) if value == bad));
        assert_eq!(
            error.message(),
            format!(
                "Not a valid log level: '{bad}'. Allowed values are: OFF, ERROR, WARN, INFO, DEBUG, TRACE"
            )
        );
    }
    let error = log_level(&variables(&without("LOG_LEVEL"))).unwrap_err();
    assert_eq!(error.message(), "Missing .env variable: LOG_LEVEL");
}

#[test]
fn the_chunk_size_must_be_above_zero() {
    assert_eq!(chunk_size(&variables(&with("SQL_CHUNK_SIZE", "1"))).unwrap(), 1);
    let zero = chunk_size(&variables(&with("SQL_CHUNK_SIZE", "0"))).unwrap_err();
    assert!(matches!(zero, EnvError::ZeroChunkSize));
    assert_eq!(zero.message(), "SQL_CHUNK_SIZE can't be zero");
    let bad = chunk_size(&variables(&with("SQL_CHUNK_SIZE", "many"))).unwrap_err();
    assert_eq!(bad.message(), "Can't convert SQL_CHUNK_SIZE to number: 'many'");
    let missing = chunk_size(&variables(&without("SQL_CHUNK_SIZE"))).unwrap_err();
    assert_eq!(missing.message(), "Missing .env variable: SQL_CHUNK_SIZE");
}

#[test]
fn the_refresh_mode_is_one_of_three() {
    let none = with("MOD_REFRESH", "none");
    assert_eq!(mod_refresh_options(&variables(&none)).unwrap(), ModRefreshOptions::NoRefresh);
    let cache = with("MOD_REFRESH", "cache-only");
    assert_eq!(
        mod_refresh_options(&variables(&cache)).unwrap(),
        ModRefreshOptions::CacheOnly(86_400)
    );
    let download = with("MOD_REFRESH", "download-if-expired");
    assert_eq!(
        mod_refresh_options(&variables(&download)).unwrap(),
        ModRefreshOptions::DownloadIfExpired(86_400)
    );
    for bad in ["", "None", "download", "cache_only", "expiration"] {
        let error = mod_refresh_options(&variables(&with("MOD_REFRESH", bad))).unwrap_err();
        assert!(matches!(&error, EnvError::InvalidRefreshOption(value) if value == bad));
        assert_eq!(
            error.message(),
            format!(
                "Not a valid mod refresh option: '{bad}'. Allowed values are: download-if-expired, cache-only, none"
            )
        );
    }
    let missing = mod_refresh_options(&variables(&without("MOD_REFRESH"))).unwrap_err();
    assert_eq!(missing.message(), "Missing .env variable: MOD_REFRESH");
}

#[test]
fn the_download_mode_takes_its_window_in_hours() {
    let mut pairs = with("MOD_REFRESH", "download-if-expired");
    pairs.push(("MOD_IMPORT_INTERVAL_HOURS".to_string(), "2".to_string()));
    assert_eq!(
        mod_refresh_options(&variables(&pairs)).unwrap(),
        ModRefreshOptions::DownloadIfExpired(7200)
    );
}

#[test]
fn the_window_is_needed_only_by_the_modes_that_import() {
    let mut pairs = without("MOD_IMPORT_INTERVAL_HOURS");
    let missing = mod_refresh_options(&variables(&pairs)).unwrap_err();
    assert!(matches!(missing, EnvError::Missing(Variable::ModImportIntervalHours)));
    assert_eq!(missing.message(), "Missing .env variable: MOD_IMPORT_INTERVAL_HOURS");
    pairs.push(("MOD_REFRESH".to_string(), "cache-only".to_string()));
    assert!(mod_refresh_options(&variables(&pairs)).is_err());
    pairs.push(("MOD_REFRESH".to_string(), "none".to_string()));
    assert_eq!(mod_refresh_options(&variables(&pairs)).unwrap(), ModRefreshOptions::NoRefresh);
}

#[test]
fn a_window_that_is_no_number_is_refused_in_every_mode() {
    for mode in ["none", "cache-only", "download-if-expired", "nonsense"] {
        let mut pairs = with("MOD_IMPORT_INTERVAL_HOURS", "a day");
        pairs.push(("MOD_REFRESH".to_string(), mode.to_string()));
        let error = mod_refresh_options(&variables(&pairs)).unwrap_err();
        assert!(matches!(&error, EnvError::InvalidNumber(Variable::ModImportIntervalHours, _)));
        assert_eq!(error.message(), "MOD_IMPORT_INTERVAL_HOURS is not a valid number: 'a day'");
    }
}

#[test]
fn a_window_whose_seconds_do_not_fit_is_no_number() {
    let most = (u64::MAX / 3600).to_string();
    let fits = with("MOD_IMPORT_INTERVAL_HOURS", &most);
    assert_eq!(
        mod_refresh_options(&variables(&fits)).unwrap(),
        ModRefreshOptions::DownloadIfExpired(u64::MAX / 3600 * 3600)
    );
    let over = (u64::MAX / 3600 + 1).to_string();
    let error =
        mod_refresh_options(&variables(&with("MOD_IMPORT_INTERVAL_HOURS", &over))).unwrap_err();
    assert!(matches!(error, EnvError::InvalidNumber(Variable::ModImportIntervalHours, _)));
    let zero = with("MOD_IMPORT_INTERVAL_HOURS", "0");
    assert_eq!(
        mod_refresh_options(&variables(&zero)).unwrap(),
        ModRefreshOptions::DownloadIfExpired(0)
    );
}

#[test]
fn the_connection_string_is_taken_as_it_is() {
    assert_eq!(db_url(&variables(&with("DB_URL", ""))).unwrap(), "");
    assert_eq!(db_url(&variables(&vars(complete()))).unwrap(), "postgres://localhost/mods");
    let missing = db_url(&variables(&without("DB_URL"))).unwrap_err();
    assert_eq!(missing.message(), "Missing .env variable: DB_URL");
}

#[test]
fn the_first_fault_is_reported() {
    let mut pairs = without("DB_URL");
    assert!(matches!(
        Env::load(&variables(&pairs)).unwrap_err(),
        EnvError::Missing(Variable::DbUrl)
    ));
    pairs.push(("MOD_REFRESH".to_string(), "sometimes".to_string()));
    assert!(matches!(
        Env::load(&variables(&pairs)).unwrap_err(),
        EnvError::InvalidRefreshOption(_)
    ));
    pairs.push(("SQL_CHUNK_SIZE".to_string(), "0".to_string()));
    assert!(matches!(Env::load(&variables(&pairs)).unwrap_err(), EnvError::ZeroChunkSize));
    pairs.push(("LOG_LEVEL".to_string(), "loud".to_string()));
    assert!(matches!(Env::load(&variables(&pairs)).unwrap_err(), EnvError::InvalidLogLevel(_)));
    pairs.push(("PORT".to_string(), "http".to_string()));
    assert!(matches!(
        Env::load(&variables(&pairs)).unwrap_err(),
        EnvError::InvalidNumber(Variable::Port, _)
    ));
    assert!(matches!(
        Env::load(&variables(&vec![])).unwrap_err(),
        EnvError::Missing(Variable::Port)
    ));
}

#[test]
fn of_two_values_for_one_variable_the_later_stands() {
    let mut pairs = vars(complete());
    pairs.push(("PORT".to_string(), "9090".to_string()));
    assert_eq!(port(&variables(&pairs)).unwrap(), 9090);
}

#[test]
fn numbers_are_read_as_std_reads_them() {
    let long = "9".repeat(40);
    let cases = [
        "0", "7", "007", "+7", "++7", "-7", "+", "", " 7", "7 ", "1e3", "٣", "18446744073709551615",
        "18446744073709551616", "65535", "65536", "9999", &long,
    ];
    for text in cases {
        assert_eq!(parse_unsigned(text, u64::MAX), text.parse::<u64>().ok());
        assert_eq!(parse_unsigned(text, 65535), text.parse::<u16>().ok().map(u64::from));
        assert_eq!(parse_unsigned(text, 255), text.parse::<u8>().ok().map(u64::from));
    }
    assert_eq!(parse_unsigned("5", 4), None);
    assert_eq!(parse_unsigned("4", 4), Some(4));
    assert_eq!(parse_unsigned("0", 0), Some(0));
    assert_eq!(parse_unsigned("1", 0), None);
}

#[test]
fn variables_have_their_names() {
    assert_eq!(Variable::Port.as_str(), "PORT");
    assert_eq!(Variable::LogLevel.as_str(), "LOG_LEVEL");
    assert_eq!(Variable::SqlChunkSize.as_str(), "SQL_CHUNK_SIZE");
    assert_eq!(Variable::ModRefresh.as_str(), "MOD_REFRESH");
    assert_eq!(Variable::ModImportIntervalHours.as_str(), "MOD_IMPORT_INTERVAL_HOURS");
    assert_eq!(Variable::DbUrl.as_str(), "DB_URL");
}
