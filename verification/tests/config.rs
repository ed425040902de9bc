use mail_mcp::config::{
    config_path, default_sent_folder, load_settings, parse_bool, resolve_cached, settings_from_env,
    AccountConfig, ConfigFile, EnvVars, ResolveCache, ResolvedAccount, Settings,
};
use mail_mcp::secret::{CommandOutput, Step};

fn text(s: &str) -> Option<String> {
    Some(s.to_string())
}

fn no_env() -> EnvVars {
    EnvVars {
        mail_mcp_config: None,
        xdg_config_home: None,
        home: None,
        imap_host: None,
        imap_port: None,
        imap_user: None,
        imap_pass: None,
        smtp_host: None,
        smtp_port: None,
        smtp_user: None,
        smtp_pass: None,
        smtp_from: None,
        mail_smtp_write_enabled: None,
        mail_max_attachment_bytes: None,
        mail_sent_folder: None,
    }
}

fn login_env() -> EnvVars {
    EnvVars { imap_user: text("me@x"), imap_pass: text("pw"), ..no_env() }
}

fn printed(stdout: &str) -> CommandOutput {
    CommandOutput::Exited { success: true, status: "exit status: 0".to_string(), stdout: stdout.as_bytes().to_vec(), stderr: vec![] }
}

fn settings(name: &str, account: AccountConfig) -> Settings {
    let mut s = Settings::default();
    s.accounts.insert(name.to_string(), account);
    s
}

fn resolved(r: Result<Step<ResolvedAccount>, String>) -> ResolvedAccount {
    match r {
        Ok(Step::Done(a)) => a,
        other => panic!("{other:?}"),
    }
}

fn command<T: std::fmt::Debug>(r: Result<Step<T>, String>) -> String {
    match r {
        Ok(Step::Run(c)) => c,
        other => panic!("{other:?}"),
    }
}

#[test]
fn one_com_uses_its_namespaced_sent_folder_by_default() {
    assert_eq!(default_sent_folder("imap.one.com"), "INBOX.Sent");
    assert_eq!(default_sent_folder("imap.gmail.com"), "Sent");
}

#[test]
fn the_provider_is_found_in_any_case() {
    assert_eq!(default_sent_folder("IMAP.One.Com"), "INBOX.Sent");
    assert_eq!(default_sent_folder(""), "Sent");
}

#[test]
fn a_sparse_account_gets_defaults() {
    let account = AccountConfig { imap_user: text("me@x"), imap_pass: text("pw"), ..Default::default() };
    let a = resolved(account.resolve("home", false, &vec![]));
    assert_eq!((a.imap_host.as_str(), a.imap_port, a.smtp_host.as_str(), a.smtp_port), ("imap.gmail.com", 993, "smtp.gmail.com", 587));
    assert_eq!((a.imap_pass.as_str(), a.smtp_pass.as_str(), a.smtp_user.as_str(), a.smtp_from.as_str()), ("pw", "pw", "me@x", "me@x"));
    assert!(!a.smtp_write_enabled);
    assert_eq!((a.max_attachment_bytes, a.sent_folder.as_str()), (25 * 1024 * 1024, "Sent"));
}

#[test]
fn what_an_account_says_is_used() {
    let account = AccountConfig {
        imap_host: text("imap.one.com"),
        imap_port: Some(1),
        imap_user: text("u"),
        imap_pass: text("p"),
        imap_pass_cmd: text("never"),
        smtp_host: text("h"),
        smtp_port: Some(465),
        smtp_user: text("su"),
        smtp_pass: text("sp"),
        smtp_pass_cmd: None,
        smtp_from: text("f"),
        smtp_write_enabled: Some(true),
        max_attachment_bytes: Some(7),
        sent_folder: None,
    };
    let a = resolved(account.clone().resolve("x", true, &vec![]));
    assert_eq!((a.imap_port, a.smtp_port, a.max_attachment_bytes, a.smtp_write_enabled), (1, 465, 7, true));
    assert_eq!((a.smtp_user.as_str(), a.smtp_pass.as_str(), a.smtp_from.as_str(), a.sent_folder.as_str()), ("su", "sp", "f", "INBOX.Sent"));
    let b = a.clone();
    assert_eq!(b.imap_host, "imap.one.com");
}

#[test]
fn a_user_is_required() {
    assert_eq!(AccountConfig::default().resolve("home", false, &vec![]).err().unwrap(), "account 'home': imap_user is required");
}

#[test]
fn secrets_are_asked_for_one_after_the_other() {
    let account = AccountConfig { imap_user: text("u"), imap_pass_cmd: text("one"), smtp_pass_cmd: text("two"), ..Default::default() };
    assert_eq!(command(account.resolve("n", false, &vec![])), "one");
    assert_eq!(command(account.resolve("n", false, &vec![printed("a\n")])), "two");
    let a = resolved(account.resolve("n", false, &vec![printed("a\n"), printed("b\n")]));
    assert_eq!((a.imap_pass.as_str(), a.smtp_pass.as_str()), ("a", "b"));
}

#[test]
fn an_output_goes_to_the_secret_that_needs_it() {
    let account = AccountConfig { imap_user: text("u"), imap_pass: text("i"), smtp_pass: text(""), ..Default::default() };
    assert_eq!(command(account.resolve("n", true, &vec![])), "security find-generic-password -s mail_mcp -a n-smtp -w");
    let a = resolved(account.resolve("n", true, &vec![printed("s")]));
    assert_eq!((a.imap_pass.as_str(), a.smtp_pass.as_str()), ("i", "s"));
    assert!(account.resolve("n", false, &vec![]).err().unwrap().starts_with("no secret available"));
}

#[test]
fn accounts_are_found_by_name_or_by_default() {
    let account = AccountConfig { imap_user: text("u"), imap_pass: text("p"), ..Default::default() };
    let mut s = settings("work", account);
    assert_eq!(s.resolve(None, false, &vec![]).err().unwrap(), "no account given and no default_account set");
    assert_eq!(s.resolve(Some("home"), false, &vec![]).err().unwrap(), "unknown account 'home'");
    assert_eq!(resolved(s.resolve(Some("work"), false, &vec![])).imap_user, "u");
    s.default_account = text("work");
    assert_eq!(resolved(s.resolve(None, false, &vec![])).imap_user, "u");
}

#[test]
fn the_configuration_file_is_looked_for() {
    assert_eq!(config_path(&no_env()), None);
    let env = EnvVars { home: text("/home/me"), ..no_env() };
    assert_eq!(config_path(&env).unwrap(), "/home/me/.config/mail_mcp/config.toml");
    let env = EnvVars { xdg_config_home: text("/xdg"), ..env };
    assert_eq!(config_path(&env).unwrap(), "/xdg/mail_mcp/config.toml");
    let env = EnvVars { mail_mcp_config: text("./my.toml"), ..env };
    assert_eq!(config_path(&env).unwrap(), "./my.toml");
    let env = EnvVars { mail_mcp_config: text(""), xdg_config_home: text(""), ..env };
    assert_eq!(config_path(&env).unwrap(), "/home/me/.config/mail_mcp/config.toml");
}

#[test]
fn loading_says_what_went_wrong() {
    assert!(Settings::load(None, ConfigFile::Invalid("x".to_string())).unwrap().is_none());
    assert!(Settings::load(Some("p"), ConfigFile::Missing).unwrap().is_none());
    assert_eq!(Settings::load(Some("p"), ConfigFile::Unreadable("e".to_string())).err().unwrap(), "cannot read p: e");
    assert_eq!(Settings::load(Some("p"), ConfigFile::Invalid("e".to_string())).err().unwrap(), "invalid config p: e");
    let s = settings("a", AccountConfig::default());
    assert!(Settings::load(Some("p"), ConfigFile::Holds(s)).unwrap().unwrap().accounts.contains_key("a"));
}

#[test]
fn switches_are_read() {
    for v in ["1", "true", " YES ", "On\n"] {
        assert!(parse_bool(v), "{v:?}");
    }
    for v in ["", "0", "false", "no", "off", "2", "yes!"] {
        assert!(!parse_bool(v), "{v:?}");
    }
}

#[test]
fn the_environment_needs_a_login() {
    assert_eq!(settings_from_env(&no_env()).err().unwrap(), "IMAP_USER not set");
    assert_eq!(ResolvedAccount::from_env(&no_env()).err().unwrap(), "IMAP_USER not set");
    let env = EnvVars { imap_user: text("u"), ..no_env() };
    assert_eq!(settings_from_env(&env).err().unwrap(), "IMAP_PASS not set");
    assert_eq!(ResolvedAccount::from_env(&env).err().unwrap(), "IMAP_PASS not set");
}

#[test]
fn the_environment_is_read_alike_both_ways() {
    let env = EnvVars {
        imap_host: text("imap.one.com"),
        imap_port: text("143"),
        smtp_port: text("bad"),
        smtp_pass: text("sp"),
        mail_smtp_write_enabled: text("yes"),
        mail_max_attachment_bytes: text("1000"),
        ..login_env()
    };
    let direct = ResolvedAccount::from_env(&env).unwrap();
    let s = settings_from_env(&env).unwrap();
    assert_eq!(s.default_account.as_deref(), Some("default"));
    let via = resolved(s.resolve(None, false, &vec![]));
    assert_eq!(format!("{direct:?}"), format!("{via:?}"));
    assert_eq!((direct.imap_port, direct.smtp_port, direct.max_attachment_bytes), (143, 587, 1000));
    assert_eq!((direct.smtp_pass.as_str(), direct.sent_folder.as_str(), direct.smtp_write_enabled), ("sp", "INBOX.Sent", true));
}

#[test]
fn outbound_mail_is_off_by_default() {
    let account = ResolvedAccount::from_env(&login_env()).unwrap();
    assert!(!account.smtp_write_enabled);
    assert_eq!(account.max_attachment_bytes, 26_214_400);
}

#[test]
fn settings_fall_back_to_the_environment() {
    let from_file = settings("a", AccountConfig::default());
    assert!(load_settings(Ok(Some(from_file)), &login_env()).unwrap().accounts.contains_key("a"));
    assert!(load_settings(Ok(None), &login_env()).unwrap().accounts.contains_key("default"));
    assert_eq!(load_settings(Ok(None), &no_env()).err().unwrap(), "IMAP_USER not set");
    assert_eq!(load_settings(Err("broken".to_string()), &login_env()).err().unwrap(), "broken");
}

#[test]
fn a_resolved_account_is_remembered() {
    let account = AccountConfig { imap_user: text("u"), imap_pass_cmd: text("cmd"), ..Default::default() };
    let mut s = settings("n", account);
    s.default_account = text("n");
    let mut cache = ResolveCache::new();
    assert_eq!(command(resolve_cached(&mut cache, &s, None, false, &vec![])), "cmd");
    let failure = CommandOutput::NotStarted("e".to_string());
    assert!(resolve_cached(&mut cache, &s, None, false, &vec![failure]).is_err());
    assert_eq!(command(resolve_cached(&mut cache, &s, None, false, &vec![])), "cmd");
    let first = match resolve_cached(&mut cache, &s, None, false, &vec![printed("pw\n")]).unwrap() {
        Step::Done(a) => a,
        Step::Run(_) => panic!("not resolved"),
    };
    assert_eq!(first.imap_pass, "pw");
    let empty = Settings::default();
    match resolve_cached(&mut cache, &empty, Some("n"), false, &vec![printed("other")]).unwrap() {
        Step::Done(a) => assert!(std::sync::Arc::ptr_eq(&a, &first)),
        Step::Run(_) => panic!("not remembered"),
    }
    assert_eq!(resolve_cached(&mut cache, &empty, Some("m"), false, &vec![]).err().unwrap(), "unknown account 'm'");
    assert_eq!(resolve_cached(&mut cache, &empty, None, false, &vec![]).err().unwrap(), "no account given and no default_account set");
}

#[test]
fn no_name_means_the_default() {
    let account = AccountConfig { imap_user: text("u"), imap_pass: text("p"), ..Default::default() };
    let mut s = settings("n", account);
    s.default_account = text("n");
    let mut by_default = ResolveCache::new();
    let mut by_name = ResolveCache::new();
    let first = resolve_cached(&mut by_default, &s, None, false, &vec![]);
    let second = resolve_cached(&mut by_name, &s, Some("n"), false, &vec![]);
    assert_eq!(format!("{first:?}"), format!("{second:?}"));
    match (first.unwrap(), resolve_cached(&mut by_default, &s, Some("n"), false, &vec![]).unwrap()) {
        (Step::Done(a), Step::Done(b)) => assert!(std::sync::Arc::ptr_eq(&a, &b)),
        _ => panic!("not resolved"),
    }
    s.default_account = None;
    assert_eq!(resolve_cached(&mut by_default, &s, None, false, &vec![]).err().unwrap(), "no account given and no default_account set");
}
