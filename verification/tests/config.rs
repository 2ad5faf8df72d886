use sam_toolkit::cli::{BudgetCommand, InCanadaArgs, InCanadaCommand, ProjectsArgs, TopArgs, TopSort};
use sam_toolkit::config::{env_any, unix_seconds, Config, Session};

fn set(values: &[Option<&str>]) -> Vec<Option<String>> {
    values.iter().map(|v| v.map(str::to_string)).collect()
}

#[test]
fn settings_take_the_first_set_variable() {
    assert_eq!(env_any(&set(&[Some("a"), Some("b")])), Some("a".to_string()));
    assert_eq!(env_any(&set(&[None, Some("b")])), Some("b".to_string()));
    assert_eq!(env_any(&set(&[None, None])), None);
    // A variable that is set but blank hides the ones after it.
    assert_eq!(env_any(&set(&[Some("  "), Some("b")])), None);
}

#[test]
fn config_falls_back_to_the_web_apps_values() {
    let config = Config::load(&set(&[None, None]), &set(&[None, None]));
    assert_eq!(config.url, "https://yrklwvnpkqhmhsmmaele.supabase.co");
    assert_eq!(config.anon_key, "sb_publishable_cWyX02iHRP9tHRaFwyf8Wg_EXlZKv3I");
    let config = Config::load(&set(&[None, Some("https://x")]), &set(&[Some("k"), None]));
    assert_eq!(config.url, "https://x");
    assert_eq!(config.anon_key, "k");
}

#[test]
fn sessions_expire_a_minute_early() {
    let session = Session {
        access_token: "a".to_string(),
        refresh_token: "r".to_string(),
        expires_at: 1000,
        user_id: "u".to_string(),
        email: None,
    };
    assert!(!session.is_expired_at(939));
    assert!(session.is_expired_at(940));
    assert!(session.is_expired_at(2000));
    assert!(session.is_expired());
    let later = Session { expires_at: i64::MAX, ..session };
    assert!(!later.is_expired());
}

#[test]
fn arguments_are_plain_values() {
    let args = InCanadaArgs { command: Some(InCanadaCommand::Add { dates: vec!["2025-01-01".to_string()] }) };
    assert_ne!(args.command, Some(InCanadaCommand::List));
    assert_eq!(BudgetCommand::Status { months: 12 }, BudgetCommand::Status { months: 12 });
    let top = TopArgs { count: 5, by: TopSort::Cpu };
    assert_eq!(top.by, TopSort::Cpu);
    assert_eq!(ProjectsArgs { path: None }.path, None);
}

#[test]
fn clock_readings_carry_their_sign() {
    assert_eq!(unix_seconds(false, 1_700_000_000), 1_700_000_000);
    assert_eq!(unix_seconds(true, 5), -5);
    assert_eq!(unix_seconds(false, u64::MAX), i64::MAX);
    assert_eq!(unix_seconds(true, u64::MAX), i64::MIN);
    assert_eq!(unix_seconds(true, i64::MAX as u64), -i64::MAX);
}
