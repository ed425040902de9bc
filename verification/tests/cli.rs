use mail_mcp::cli::{
    accept_secret, add_step, config_or_default_path, list_accounts, run_accounts, store_keychain,
    test_account, AccountsAction, AccountsArgs, AccountsCommand, AddArgs, Cli, Command, Dispatch,
    ServeArgs, StoreStep,
};
use mail_mcp::config::{AccountConfig, EnvVars, ResolvedAccount, Settings};
use mail_mcp::secret::Step;

fn text(s: &str) -> Option<String> {
    Some(s.to_string())
}

fn env(user: Option<&str>) -> EnvVars {
    EnvVars {
        mail_mcp_config: None,
        xdg_config_home: None,
        home: None,
        imap_host: None,
        imap_port: None,
        imap_user: user.map(|u| u.to_string()),
        imap_pass: user.map(|_| "pw".to_string()),
        smtp_host: None,
        smtp_port: None,
        smtp_user: None,
        smtp_pass: None,
        smtp_from: None,
        mail_smtp_write_enabled: None,
        mail_max_attachment_bytes: None,
        mail_sent_folder: None,
    }
}

fn args(name: &str, shared: bool) -> AddArgs {
    AddArgs {
        name: name.to_string(),
        imap_host: "imap.x".to_string(),
        imap_port: 993,
        imap_user: "me@x".to_string(),
        smtp_host: "smtp.x".to_string(),
        smtp_port: 465,
        smtp_user: None,
        smtp_from: text("alias@x"),
        smtp_write_enabled: true,
        sent_folder: None,
        shared_password: shared,
        make_default: false,
    }
}

fn two() -> Settings {
    let mut s = Settings { default_account: text("work"), ..Settings::default() };
    s.accounts.insert("work".to_string(), AccountConfig { imap_user: text("w@x"), ..Default::default() });
    s.accounts.insert("home".to_string(), AccountConfig { imap_user: text("h@x"), smtp_from: text("alias@x"), ..Default::default() });
    s
}

fn report(r: Result<AccountsAction, String>) -> String {
    match r {
        Ok(AccountsAction::Report(text)) => text,
        Ok(_) => panic!("no report"),
        Err(e) => panic!("{e}"),
    }
}

fn saved(r: Result<AccountsAction, String>) -> (Settings, String) {
    match r {
        Ok(AccountsAction::Save { settings, report }) => (settings, report),
        Ok(_) => panic!("nothing to save"),
        Err(e) => panic!("{e}"),
    }
}

#[test]
fn no_command_serves() {
    assert!(matches!(Cli { command: None }.dispatch(), Dispatch::Serve(None)));
    let serve = Cli { command: Some(Command::Serve(ServeArgs { account: text("a") })) };
    assert!(matches!(serve.dispatch(), Dispatch::Serve(Some(a)) if a == "a"));
    let list = Cli { command: Some(Command::Accounts(AccountsArgs { command: AccountsCommand::List })) };
    assert!(matches!(list.dispatch(), Dispatch::Accounts(AccountsCommand::List)));
}

#[test]
fn a_file_is_made_where_none_can_be_found() {
    assert_eq!(config_or_default_path(&env(None)), "mail_mcp.toml");
    let home = EnvVars { home: text("/h"), ..env(None) };
    assert_eq!(config_or_default_path(&home), "/h/.config/mail_mcp/config.toml");
}

#[test]
fn accounts_are_listed_in_order() {
    let expected = "home\n  user: h@x\n  from: alias@x\nwork (default)\n  user: w@x\n  from: w@x";
    assert_eq!(list_accounts(&two()), expected);
    assert_eq!(report(run_accounts(AccountsCommand::List, "p", Ok(Some(two())), &env(Some("e")))), expected);
}

#[test]
fn listing_falls_back_to_the_environment() {
    let from_env = report(run_accounts(AccountsCommand::List, "p", Ok(None), &env(Some("e@x"))));
    assert_eq!(from_env, "default (default)\n  user: e@x\n  from: e@x");
    assert_eq!(report(run_accounts(AccountsCommand::List, "p", Ok(Some(Settings::default())), &env(None))), "no accounts configured");
    assert_eq!(run_accounts(AccountsCommand::List, "p", Err("bad".to_string()), &env(None)).err().unwrap(), "bad");
}

#[test]
fn adding_asks_for_a_shared_secret_once() {
    let (settings, args) = match run_accounts(AccountsCommand::Add(args("work", true)), "p", Ok(None), &env(None)).unwrap() {
        AccountsAction::AskSecret { prompt, entry, settings, args } => {
            assert_eq!((prompt.as_str(), entry.as_str()), ("IMAP app password for me@x <work>: ", "work-imap"));
            (settings, args)
        }
        _ => panic!("no question"),
    };
    let (s, report) = saved(Ok(add_step(settings, args, 1, "p")));
    assert_eq!(report, "account 'work' saved to p");
    assert_eq!(s.default_account.as_deref(), Some("work"));
    let a = s.accounts.get("work").unwrap();
    assert_eq!((a.imap_pass.as_deref(), a.smtp_pass.as_deref()), (None, None));
    assert_eq!(a.imap_pass_cmd.as_deref(), Some("security find-generic-password -s mail_mcp -a work-imap -w"));
    assert_eq!(a.smtp_pass_cmd, a.imap_pass_cmd);
    assert_eq!((a.smtp_user.as_deref(), a.smtp_from.as_deref(), a.smtp_write_enabled), (Some("me@x"), Some("alias@x"), Some(true)));
    match s.resolve(None, false, &vec![]) {
        Ok(Step::Run(command)) => assert_eq!(Some(command), a.imap_pass_cmd),
        _ => panic!("no command"),
    }
}

#[test]
fn adding_asks_for_two_secrets() {
    let mut a = args("new", false);
    a.smtp_user = text("su");
    a.make_default = true;
    let (settings, a) = match add_step(two(), a, 1, "p") {
        AccountsAction::AskSecret { prompt, entry, settings, args } => {
            assert_eq!((prompt.as_str(), entry.as_str()), ("SMTP app password for su <new>: ", "new-smtp"));
            (settings, args)
        }
        _ => panic!("no question"),
    };
    let (s, _) = saved(Ok(add_step(settings, a, 2, "p")));
    assert_eq!(s.default_account.as_deref(), Some("new"));
    assert_eq!(s.accounts.len(), 3);
    assert!(s.accounts.get("new").unwrap().smtp_pass_cmd.as_deref().unwrap().contains("-a new-smtp "));
}

#[test]
fn adding_keeps_a_default() {
    let (s, _) = saved(Ok(add_step(two(), args("new", true), 1, "p")));
    assert_eq!(s.default_account.as_deref(), Some("work"));
    let (s, _) = saved(run_accounts(AccountsCommand::Remove { name: "new".to_string() }, "p", Ok(Some(s)), &env(None)));
    assert_eq!(list_accounts(&s), list_accounts(&two()));
    assert_eq!(s.default_account.as_deref(), Some("work"));
    let (s, _) = saved(Ok(add_step(Settings::default(), args("new", true), 1, "p")));
    assert_eq!(s.default_account.as_deref(), Some("new"));
    let (s, _) = saved(run_accounts(AccountsCommand::Remove { name: "new".to_string() }, "p", Ok(Some(s)), &env(None)));
    assert!(s.default_account.is_none() && s.accounts.is_empty());
}

#[test]
fn removing_the_default_leaves_none() {
    let (s, report) = saved(run_accounts(AccountsCommand::Remove { name: "work".to_string() }, "p", Ok(Some(two())), &env(None)));
    assert_eq!(report, "account 'work' removed");
    assert!(s.default_account.is_none());
    assert!(!s.accounts.contains_key("work"));
    let (s, _) = saved(run_accounts(AccountsCommand::Remove { name: "home".to_string() }, "p", Ok(Some(two())), &env(None)));
    assert_eq!(s.default_account.as_deref(), Some("work"));
}

#[test]
fn accounts_that_are_not_there_are_errors() {
    for command in [AccountsCommand::Remove { name: "x".to_string() }, AccountsCommand::Default { name: "x".to_string() }] {
        assert_eq!(run_accounts(command, "p", Ok(Some(two())), &env(None)).err().unwrap(), "account 'x' not found");
    }
    for command in [AccountsCommand::Remove { name: "x".to_string() }, AccountsCommand::Default { name: "x".to_string() }] {
        assert_eq!(run_accounts(command, "p", Ok(None), &env(None)).err().unwrap(), "no config file at p");
    }
}

#[test]
fn the_default_can_be_set() {
    let (s, report) = saved(run_accounts(AccountsCommand::Default { name: "home".to_string() }, "p", Ok(Some(two())), &env(None)));
    assert_eq!(report, "default account set to 'home'");
    assert_eq!(s.default_account.as_deref(), Some("home"));
}

#[test]
fn testing_takes_the_settings() {
    match run_accounts(AccountsCommand::Test { account: text("home") }, "p", Ok(Some(two())), &env(None)).unwrap() {
        AccountsAction::Test { settings, account } => {
            assert!(settings.accounts.contains_key("home"));
            assert_eq!(account.as_deref(), Some("home"));
        }
        _ => panic!("no test"),
    }
    assert_eq!(run_accounts(AccountsCommand::Test { account: None }, "p", Ok(None), &env(None)).err().unwrap(), "IMAP_USER not set");
}

#[test]
fn a_login_is_reported() {
    let account = ResolvedAccount::from_env(&env(Some("me@x"))).unwrap();
    assert_eq!(
        test_account(&account, Ok(()), Ok(())).unwrap(),
        "IMAP OK: imap.gmail.com:993 as me@x\nSMTP target: smtp.gmail.com:587 (from me@x)"
    );
    assert_eq!(test_account(&account, Err("no".to_string()), Ok(())).err().unwrap(), "IMAP login failed: no");
    assert_eq!(test_account(&account, Err("no".to_string()), Err("down".to_string())).err().unwrap(), "IMAP login failed: no");
}

#[test]
fn an_smtp_server_out_of_reach_is_reported() {
    let account = ResolvedAccount::from_env(&env(Some("me@x"))).unwrap();
    assert_eq!(test_account(&account, Ok(()), Err("down".to_string())).err().unwrap(), "SMTP not reachable: down");
}

#[test]
fn typed_secrets_are_trimmed() {
    assert_eq!(accept_secret(" pw \n"), Ok("pw".to_string()));
    assert_eq!(accept_secret(" \n"), Err("empty secret".to_string()));
}

#[test]
fn secrets_are_stored_on_macos_only() {
    assert!(matches!(store_keychain("a", "s", false, None), Ok(StoreStep::Done)));
    match store_keychain("a-imap", "s", true, None).unwrap() {
        StoreStep::Run { program, args } => {
            assert_eq!(program, "security");
            assert_eq!(args, vec!["add-generic-password", "-U", "-s", "mail_mcp", "-a", "a-imap", "-w", "s"]);
        }
        StoreStep::Done => panic!("nothing to run"),
    }
    assert!(matches!(store_keychain("a", "s", true, Some(true)), Ok(StoreStep::Done)));
    assert_eq!(store_keychain("a", "s", true, Some(false)).err().unwrap(), "failed to store Keychain entry for a");
}
