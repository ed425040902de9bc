//! The command line: serving, and managing the accounts in the configuration
//! file. Secrets go to the Keychain; the file names the command that prints
//! them.
use vstd::prelude::*;

use crate::config;
use crate::config::{
    config_location, env_settings, loaded_view, or_default, resolution, Account, AccountConfig,
    EnvVars, Resolved, ResolvedAccount, Settings, Setup,
};
use crate::mime::text_of;
use crate::names::{enumerates, in_order};
use crate::secret;
use crate::secret::{keychain_command, needed_command, result_text, Output, Progress};
use crate::text;
use crate::text::{decimal, joined, trimmed, views};

verus! {

/// The command line.
#[derive(Debug)]
pub struct Cli {
    pub command: Option<Command>,
}

/// What the program is asked to do.
#[derive(Debug)]
pub enum Command {
    /// Run the server over stdio (also where no command is given).
    Serve(ServeArgs),
    /// Manage the accounts in the configuration file.
    Accounts(AccountsArgs),
}

/// How to serve.
#[derive(Debug)]
pub struct ServeArgs {
    /// The account to serve; the default account where none is given.
    pub account: Option<String>,
}

/// How to manage accounts.
#[derive(Debug)]
pub struct AccountsArgs {
    pub command: AccountsCommand,
}

/// What to do with the accounts.
#[derive(Debug)]
pub enum AccountsCommand {
    /// List the accounts.
    List,
    /// Add or update an account.
    Add(AddArgs),
    /// Remove an account.
    Remove { name: String },
    /// Set the default account.
    Default { name: String },
    /// Test IMAP login and SMTP reachability without sending mail.
    Test { account: Option<String> },
}

/// An account to add.
#[derive(Debug)]
pub struct AddArgs {
    /// Account name, e.g. `personal` or `work`.
    pub name: String,
    pub imap_host: String,
    pub imap_port: u16,
    /// The login, usually the mailbox address.
    pub imap_user: String,
    pub smtp_host: String,
    pub smtp_port: u16,
    /// SMTP login; that of IMAP where none is given.
    pub smtp_user: Option<String>,
    /// `From:` address; the IMAP login where none is given.
    pub smtp_from: Option<String>,
    /// Enable outbound mail for this account.
    pub smtp_write_enabled: bool,
    /// Folder for sent copies; the provider's where none is given.
    pub sent_folder: Option<String>,
    /// Use one password for both IMAP and SMTP.
    pub shared_password: bool,
    /// Make this the default account.
    pub make_default: bool,
}

/// What the command line amounts to.
#[derive(Debug)]
pub enum Dispatch {
    /// Serve this account, or the default one.
    Serve(Option<String>),
    /// Manage accounts.
    Accounts(AccountsCommand),
}

impl Cli {
    /// What the command line amounts to.
    pub fn dispatch(self) -> (r: Dispatch)
        ensures
            r == match self.command {
                None => Dispatch::Serve(None),
                Some(Command::Serve(args)) => Dispatch::Serve(args.account),
                Some(Command::Accounts(args)) => Dispatch::Accounts(args.command),
            },
    {
        match self.command {
            None => Dispatch::Serve(None),
            Some(Command::Serve(args)) => Dispatch::Serve(args.account),
            Some(Command::Accounts(args)) => Dispatch::Accounts(args.command),
        }
    }
}

/// Where the configuration file is, or else where one is made.
pub fn config_or_default_path(env: &EnvVars) -> (r: String)
    ensures
        r@ == or_default(config_location(*env), "mail_mcp.toml"@),
{
    match config::config_path(env) {
        Some(path) => path,
        None => "mail_mcp.toml".to_string(),
    }
}

/// What to do next about the accounts.
pub enum AccountsAction {
    /// Print this; nothing else is left to do.
    Report(String),
    /// Ask for a secret, store it under `entry`, and go on adding the account.
    AskSecret { prompt: String, entry: String, settings: Settings, args: AddArgs },
    /// Write the settings, then print the report.
    Save { settings: Settings, report: String },
    /// Log in to this account, or the default one, and reach its SMTP server, to
    /// test it.
    Test { settings: Settings, account: Option<String> },
}

/// The mark of the default account in a list.
pub open spec fn marker(setup: Setup, name: Seq<char>) -> Seq<char> {
    if name == or_default(setup.default_account, seq![]) {
        " (default)"@
    } else {
        ""@
    }
}

/// An account as a list shows it.
pub open spec fn account_entry(setup: Setup, name: Seq<char>) -> Seq<char> {
    let account = setup.accounts[name];
    let user = or_default(account.imap_user, seq![]);
    name + marker(setup, name) + "\n  user: "@ + user + "\n  from: "@ + or_default(
        account.smtp_from,
        user,
    )
}

/// The list of the accounts, in the order of their names.
pub open spec fn account_list(setup: Setup) -> Seq<char> {
    let names = in_order(setup.accounts.dom());
    if names.len() == 0 {
        "no accounts configured"@
    } else {
        joined(names.map_values(|name: Seq<char>| account_entry(setup, name)), "\n"@)
    }
}

/// No settings.
pub open spec fn empty_setup() -> Setup {
    Setup { default_account: None, accounts: Map::empty() }
}

/// The settings that were loaded, or else none.
pub open spec fn or_empty(loaded: Option<Setup>) -> Setup {
    match loaded {
        Some(setup) => setup,
        None => empty_setup(),
    }
}

/// The settings that are listed: those that were loaded, or else those of the
/// environment variables, if they describe any.
pub open spec fn settings_to_list(loaded: Option<Setup>, env: EnvVars) -> Setup {
    let setup = or_empty(loaded);
    if setup.accounts == Map::<Seq<char>, Account>::empty() && env_settings(env) is Ok {
        env_settings(env)->Ok_0
    } else {
        setup
    }
}

/// Settings have an account for each name.
proof fn lemma_settings_dom(settings: Settings)
    ensures
        settings@.accounts.dom() == settings.accounts@.dom(),
        settings.accounts@ == Map::<Seq<char>, AccountConfig>::empty() <==> settings@.accounts
            == Map::<Seq<char>, Account>::empty(),
        forall|name: Seq<char>| #[trigger]
            settings.accounts@.contains_key(name) ==> settings@.accounts[name]
                == settings.accounts@[name]@,
{
    assert(settings@.accounts.dom() =~= settings.accounts@.dom());
    if settings@.accounts == Map::<Seq<char>, Account>::empty() {
        assert(settings.accounts@ =~= Map::empty());
    }
    if settings.accounts@ == Map::<Seq<char>, AccountConfig>::empty() {
        assert(settings@.accounts =~= Map::empty());
    }
}

/// An account as a list shows it.
fn show_account(name: &str, account: &AccountConfig, default: &str) -> (r: String)
    ensures
        r@ == name@ + (if name@ == default@ {
            " (default)"@
        } else {
            ""@
        }) + "\n  user: "@ + or_default(account@.imap_user, seq![]) + "\n  from: "@ + or_default(
            account@.smtp_from,
            or_default(account@.imap_user, seq![]),
        ),
{
    let mark = if text::same(name, default) {
        " (default)"
    } else {
        ""
    };
    let user = match &account.imap_user {
        Some(user) => user.clone(),
        None => String::new(),
    };
    let from = config::text_or(&account.smtp_from, user.as_str());
    name.to_string().concat(mark).concat("\n  user: ").concat(user.as_str()).concat(
        "\n  from: ",
    ).concat(from.as_str())
}

/// The list of the accounts: each of them once, in the order of their names.
pub fn list_accounts(settings: &Settings) -> (r: String)
    ensures
        r@ == account_list(settings@),
        enumerates(in_order(settings@.accounts.dom()), settings@.accounts.dom()),
{
    proof {
        lemma_settings_dom(*settings);
    }
    let count = settings.accounts.len();
    if count == 0 {
        return "no accounts configured".to_string();
    }
    let default = match &settings.default_account {
        Some(name) => name.clone(),
        None => String::new(),
    };
    let ghost setup = settings@;
    let ghost names = in_order(setup.accounts.dom());
    let ghost all = names.map_values(|name: Seq<char>| account_entry(setup, name));
    let mut lines: Vec<String> = Vec::new();
    let mut i: usize = 0;
    while i < count
        invariant
            i <= count == names.len(),
            setup == settings@,
            names == in_order(settings.accounts@.dom()),
            all == names.map_values(|name: Seq<char>| account_entry(setup, name)),
            default@ == or_default(setup.default_account, seq![]),
            forall|name: Seq<char>| #[trigger]
                settings.accounts@.contains_key(name) ==> setup.accounts[name]
                    == settings.accounts@[name]@,
            views(lines@) =~= all.take(i as int),
        decreases count - i,
    {
        let (name, account) = settings.accounts.at(i);
        let line = show_account(name.as_str(), account, default.as_str());
        assert(line@ == account_entry(setup, names[i as int]));
        let ghost before = views(lines@);
        lines.push(line);
        assert(views(lines@) =~= before.push(line@));
        assert(all.take(i + 1) =~= all.take(i as int).push(all[i as int]));
        i += 1;
    }
    assert(all.take(all.len() as int) =~= all);
    text::join(&lines, "\n")
}

/// The account that `args` describe. It holds no secret, only the commands that
/// print them.
pub open spec fn new_account(args: AddArgs) -> Account {
    Account {
        imap_host: Some(args.imap_host@),
        imap_port: Some(args.imap_port),
        imap_user: Some(args.imap_user@),
        imap_pass: None,
        imap_pass_cmd: Some(keychain_command(args.name@ + "-imap"@)),
        smtp_host: Some(args.smtp_host@),
        smtp_port: Some(args.smtp_port),
        smtp_user: Some(or_default(text_of(args.smtp_user), args.imap_user@)),
        smtp_pass: None,
        smtp_pass_cmd: Some(
            keychain_command(
                args.name@ + if args.shared_password {
                    "-imap"@
                } else {
                    "-smtp"@
                },
            ),
        ),
        smtp_from: Some(or_default(text_of(args.smtp_from), args.imap_user@)),
        smtp_write_enabled: Some(args.smtp_write_enabled),
        max_attachment_bytes: None,
        sent_folder: text_of(args.sent_folder),
    }
}

/// The settings with the account that `args` describe. It becomes the default if
/// that was asked for, or if there was none.
pub open spec fn with_account(setup: Setup, args: AddArgs) -> Setup {
    Setup {
        default_account: if args.make_default || setup.default_account is None {
            Some(args.name@)
        } else {
            setup.default_account
        },
        accounts: setup.accounts.insert(args.name@, new_account(args)),
    }
}

/// The settings without an account. If it was the default, there is none then.
pub open spec fn without_account(setup: Setup, name: Seq<char>) -> Setup {
    Setup {
        default_account: if setup.default_account == Some(name) {
            None
        } else {
            setup.default_account
        },
        accounts: setup.accounts.remove(name),
    }
}

/// The settings with another default.
pub open spec fn with_default(setup: Setup, name: Seq<char>) -> Setup {
    Setup { default_account: Some(name), accounts: setup.accounts }
}

/// The account that `args` describe.
fn account_from(args: &AddArgs) -> (r: AccountConfig)
    ensures
        r@ == new_account(*args),
{
    let imap_entry = args.name.clone().concat("-imap");
    let smtp_entry = if args.shared_password {
        args.name.clone().concat("-imap")
    } else {
        args.name.clone().concat("-smtp")
    };
    let r = AccountConfig {
        imap_host: Some(args.imap_host.clone()),
        imap_port: Some(args.imap_port),
        imap_user: Some(args.imap_user.clone()),
        imap_pass: None,
        imap_pass_cmd: Some(secret::keychain_cmd(imap_entry.as_str())),
        smtp_host: Some(args.smtp_host.clone()),
        smtp_port: Some(args.smtp_port),
        smtp_user: Some(config::text_or(&args.smtp_user, args.imap_user.as_str())),
        smtp_pass: None,
        smtp_pass_cmd: Some(secret::keychain_cmd(smtp_entry.as_str())),
        smtp_from: Some(config::text_or(&args.smtp_from, args.imap_user.as_str())),
        smtp_write_enabled: Some(args.smtp_write_enabled),
        max_attachment_bytes: None,
        sent_folder: args.sent_folder.clone(),
    };
    assert(r@ =~= new_account(*args));
    r
}

/// The prompt for a secret.
pub open spec fn secret_prompt(kind: Seq<char>, user: Seq<char>, name: Seq<char>) -> Seq<char> {
    kind + " app password for "@ + user + " <"@ + name + ">: "@
}

/// The prompt for a secret.
fn show_prompt(kind: &str, user: &str, name: &str) -> (r: String)
    ensures
        r@ == secret_prompt(kind@, user@, name@),
{
    kind.to_string().concat(" app password for ").concat(user).concat(" <").concat(name).concat(
        ">: ",
    )
}

/// Whether `action` is the next one in adding an account, with `stored` of its
/// secrets stored: its IMAP secret, then, unless that is shared, its SMTP
/// secret, and then the settings are written.
pub open spec fn is_add_step(
    action: AccountsAction,
    settings: Settings,
    args: AddArgs,
    stored: nat,
    path: Seq<char>,
) -> bool {
    if stored == 0 {
        action matches AccountsAction::AskSecret { prompt, entry, settings: kept, args: same }
            && prompt@ == secret_prompt("IMAP"@, args.imap_user@, args.name@) && entry@
            == args.name@ + "-imap"@ && kept == settings && same == args
    } else if stored == 1 && !args.shared_password {
        action matches AccountsAction::AskSecret { prompt, entry, settings: kept, args: same }
            && prompt@ == secret_prompt(
            "SMTP"@,
            or_default(text_of(args.smtp_user), args.imap_user@),
            args.name@,
        ) && entry@ == args.name@ + "-smtp"@ && kept == settings && same == args
    } else {
        action matches AccountsAction::Save { settings: now, report } && now@ == with_account(
            settings@,
            args,
        ) && report@ == "account '"@ + args.name@ + "' saved to "@ + path
    }
}

/// The next step in adding an account.
pub fn add_step(settings: Settings, args: AddArgs, stored: usize, path: &str) -> (r: AccountsAction)
    ensures
        is_add_step(r, settings, args, stored as nat, path@),
{
    if stored == 0 {
        let prompt = show_prompt("IMAP", args.imap_user.as_str(), args.name.as_str());
        let entry = args.name.clone().concat("-imap");
        return AccountsAction::AskSecret { prompt, entry, settings, args };
    }
    if stored == 1 && !args.shared_password {
        let smtp_user = config::text_or(&args.smtp_user, args.imap_user.as_str());
        let prompt = show_prompt("SMTP", smtp_user.as_str(), args.name.as_str());
        let entry = args.name.clone().concat("-smtp");
        return AccountsAction::AskSecret { prompt, entry, settings, args };
    }
    let ghost before = settings@;
    let account = account_from(&args);
    let default_account = if args.make_default || settings.default_account.is_none() {
        Some(args.name.clone())
    } else {
        settings.default_account
    };
    let mut accounts = settings.accounts;
    accounts.insert(args.name.clone(), account);
    let settings = Settings { default_account, accounts };
    assert(settings@.accounts =~= before.accounts.insert(args.name@, new_account(args)));
    let report = "account '".to_string().concat(args.name.as_str()).concat("' saved to ").concat(
        path,
    );
    AccountsAction::Save { settings, report }
}

/// Whether `r` is the next action for a command about the accounts.
pub open spec fn is_accounts_action(
    r: Result<AccountsAction, String>,
    command: AccountsCommand,
    path: Seq<char>,
    loaded: Result<Option<Settings>, String>,
    env: EnvVars,
) -> bool {
    match command {
        AccountsCommand::List => match loaded_view(loaded) {
            Err(e) => r matches Err(f) && f@ == e,
            Ok(found) => {
                let setup = settings_to_list(found, env);
                r matches Ok(AccountsAction::Report(report)) && report@ == account_list(setup)
                    && enumerates(in_order(setup.accounts.dom()), setup.accounts.dom())
            },
        },
        AccountsCommand::Add(args) => match loaded {
            Err(e) => r matches Err(f) && f@ == e@,
            Ok(found) => r matches Ok(AccountsAction::AskSecret {
                prompt,
                entry,
                settings,
                args: same,
            }) && settings@ == or_empty(
                match found {
                    Some(s) => Some(s@),
                    None => None,
                },
            ) && is_add_step(r->Ok_0, settings, args, 0, path),
        },
        AccountsCommand::Remove { name } => match loaded_view(loaded) {
            Err(e) => r matches Err(f) && f@ == e,
            Ok(None) => r matches Err(f) && f@ == "no config file at "@ + path,
            Ok(Some(setup)) => if setup.accounts.contains_key(name@) {
                r matches Ok(AccountsAction::Save { settings, report }) && settings@
                    == without_account(setup, name@) && report@ == "account '"@ + name@
                    + "' removed"@
            } else {
                r matches Err(f) && f@ == "account '"@ + name@ + "' not found"@
            },
        },
        AccountsCommand::Default { name } => match loaded_view(loaded) {
            Err(e) => r matches Err(f) && f@ == e,
            Ok(None) => r matches Err(f) && f@ == "no config file at "@ + path,
            Ok(Some(setup)) => if setup.accounts.contains_key(name@) {
                r matches Ok(AccountsAction::Save { settings, report }) && settings@
                    == with_default(setup, name@) && report@ == "default account set to '"@ + name@
                    + "'"@
            } else {
                r matches Err(f) && f@ == "account '"@ + name@ + "' not found"@
            },
        },
        AccountsCommand::Test { account } => match loaded_view(loaded) {
            Err(e) => r matches Err(f) && f@ == e,
            Ok(found) => match (match found {
                Some(setup) => Ok(setup),
                None => env_settings(env),
            }) {
                Err(e) => r matches Err(f) && f@ == e,
                Ok(setup) => r matches Ok(AccountsAction::Test { settings, account: same })
                    && settings@ == setup && same == account,
            },
        },
    }
}

/// The next action for a command about the accounts in the configuration file
/// at `path`, of which `loaded` was loaded.
pub fn run_accounts(
    command: AccountsCommand,
    path: &str,
    loaded: Result<Option<Settings>, String>,
    env: &EnvVars,
) -> (r: Result<AccountsAction, String>)
    ensures
        is_accounts_action(r, command, path@, loaded, *env),
{
    match command {
        AccountsCommand::List => {
            let settings = match loaded {
                Err(e) => return Err(e),
                Ok(Some(settings)) => settings,
                Ok(None) => Settings::default(),
            };
            proof {
                lemma_settings_dom(settings);
            }
            if settings.accounts.is_empty() {
                if let Ok(from_env) = config::settings_from_env(env) {
                    return Ok(AccountsAction::Report(list_accounts(&from_env)));
                }
            }
            Ok(AccountsAction::Report(list_accounts(&settings)))
        },
        AccountsCommand::Add(args) => {
            let settings = match loaded {
                Err(e) => return Err(e),
                Ok(Some(settings)) => settings,
                Ok(None) => Settings::default(),
            };
            Ok(add_step(settings, args, 0, path))
        },
        AccountsCommand::Remove { name } => {
            let settings = match loaded {
                Err(e) => return Err(e),
                Ok(Some(settings)) => settings,
                Ok(None) => return Err("no config file at ".to_string().concat(path)),
            };
            let ghost before = settings@;
            let Settings { default_account, accounts } = settings;
            let mut accounts = accounts;
            if !accounts.remove(name.as_str()) {
                return Err(
                    "account '".to_string().concat(name.as_str()).concat("' not found"),
                );
            }
            let is_default = match &default_account {
                Some(default) => text::same(default.as_str(), name.as_str()),
                None => false,
            };
            let default_account = if is_default {
                None
            } else {
                default_account
            };
            let settings = Settings { default_account, accounts };
            assert(settings@.accounts =~= before.accounts.remove(name@));
            let report = "account '".to_string().concat(name.as_str()).concat("' removed");
            Ok(AccountsAction::Save { settings, report })
        },
        AccountsCommand::Default { name } => {
            let settings = match loaded {
                Err(e) => return Err(e),
                Ok(Some(settings)) => settings,
                Ok(None) => return Err("no config file at ".to_string().concat(path)),
            };
            if !settings.accounts.contains_key(name.as_str()) {
                return Err(
                    "account '".to_string().concat(name.as_str()).concat("' not found"),
                );
            }
            let report = "default account set to '".to_string().concat(name.as_str()).concat("'");
            let settings = Settings { default_account: Some(name), accounts: settings.accounts };
            Ok(AccountsAction::Save { settings, report })
        },
        AccountsCommand::Test { account } => match config::load_settings(loaded, env) {
            Err(e) => Err(e),
            Ok(settings) => Ok(AccountsAction::Test { settings, account }),
        },
    }
}

/// Accepts the secret that was typed, without the white space around it.
pub fn accept_secret(line: &str) -> (r: Result<String, String>)
    ensures
        result_text(r) == if trimmed(line@).len() == 0 {
            Err("empty secret"@)
        } else {
            Ok(trimmed(line@))
        },
{
    let value = text::trim(line);
    if value.as_str().is_empty() {
        return Err("empty secret".to_string());
    }
    Ok(value)
}

/// What to do next in storing a secret: run a program, or nothing more.
#[derive(Debug)]
pub enum StoreStep {
    Run { program: String, args: Vec<String> },
    Done,
}

/// The arguments that store a secret in the Keychain.
pub open spec fn store_arguments(account: Seq<char>, value: Seq<char>) -> Seq<Seq<char>> {
    seq![
        "add-generic-password"@,
        "-U"@,
        "-s"@,
        "mail_mcp"@,
        "-a"@,
        account,
        "-w"@,
        value,
    ]
}

/// The next step in storing a secret: on macOS the program that does it, until
/// it has ended, and elsewhere nothing.
pub fn store_keychain(account: &str, value: &str, macos: bool, success: Option<bool>) -> (r: Result<
    StoreStep,
    String,
>)
    ensures
        if !macos {
            r matches Ok(StoreStep::Done)
        } else {
            match success {
                None => r matches Ok(StoreStep::Run { program, args }) && program@ == "security"@
                    && views(args@) == store_arguments(account@, value@),
                Some(true) => r matches Ok(StoreStep::Done),
                Some(false) => r matches Err(e) && e@ == "failed to store Keychain entry for "@
                    + account@,
            }
        },
{
    if !macos {
        return Ok(StoreStep::Done);
    }
    match success {
        None => {
            let mut args: Vec<String> = Vec::new();
            args.push("add-generic-password".to_string());
            args.push("-U".to_string());
            args.push("-s".to_string());
            args.push("mail_mcp".to_string());
            args.push("-a".to_string());
            args.push(account.to_string());
            args.push("-w".to_string());
            args.push(value.to_string());
            assert(views(args@) =~= store_arguments(account@, value@));
            Ok(StoreStep::Run { program: "security".to_string(), args })
        },
        Some(true) => Ok(StoreStep::Done),
        Some(false) => Err(
            "failed to store Keychain entry for ".to_string().concat(account),
        ),
    }
}

/// What is reported of an account whose login worked.
pub open spec fn login_report(account: Resolved) -> Seq<char> {
    "IMAP OK: "@ + account.imap_host + ":"@ + decimal(account.imap_port as nat) + " as "@
        + account.imap_user + "\nSMTP target: "@ + account.smtp_host + ":"@ + decimal(
        account.smtp_port as nat,
    ) + " (from "@ + account.smtp_from + ")"@
}

/// What is reported of an account once its login and its SMTP server were tried:
/// how it is set up, or why the login failed, or else why the SMTP server cannot
/// be reached.
pub fn test_account(
    account: &ResolvedAccount,
    login: Result<(), String>,
    reach: Result<(), String>,
) -> (r: Result<String, String>)
    ensures
        result_text(r) == match (login, reach) {
            (Err(e), _) => Err("IMAP login failed: "@ + e@),
            (Ok(_), Err(e)) => Err("SMTP not reachable: "@ + e@),
            (Ok(_), Ok(_)) => Ok(login_report(account@)),
        },
{
    if let Err(e) = login {
        return Err("IMAP login failed: ".to_string().concat(e.as_str()));
    }
    match reach {
        Ok(_) => Ok(
            "IMAP OK: ".to_string().concat(account.imap_host.as_str()).concat(":").concat(
                text::show(account.imap_port as u64).as_str(),
            ).concat(" as ").concat(account.imap_user.as_str()).concat("\nSMTP target: ").concat(
                account.smtp_host.as_str(),
            ).concat(":").concat(text::show(account.smtp_port as u64).as_str()).concat(
                " (from ",
            ).concat(account.smtp_from.as_str()).concat(")"),
        ),
        Err(e) => Err("SMTP not reachable: ".to_string().concat(e.as_str())),
    }
}

/// Adding an account asks for at most two secrets, and for one where it is
/// shared; then the settings are written.
pub proof fn law_adding_ends(
    action: AccountsAction,
    settings: Settings,
    args: AddArgs,
    stored: nat,
    path: Seq<char>,
)
    requires
        is_add_step(action, settings, args, stored, path),
        stored >= 2 || (stored == 1 && args.shared_password),
    ensures
        action is Save,
{
}

/// Whether the default account, if one is set, is among the accounts.
pub open spec fn default_exists(setup: Setup) -> bool {
    setup.default_account matches Some(name) ==> setup.accounts.contains_key(name)
}

/// Adding an account, removing one and setting the default keep the default
/// account among the accounts.
pub proof fn law_default_never_dangles(setup: Setup, args: AddArgs, name: Seq<char>)
    requires
        default_exists(setup),
    ensures
        default_exists(empty_setup()),
        default_exists(with_account(setup, args)),
        default_exists(without_account(setup, name)),
        setup.accounts.contains_key(name) ==> default_exists(with_default(setup, name)),
{
}

/// Once an account was added there is a default account, and the account can be
/// found under its name.
pub proof fn law_added_account_is_found(setup: Setup, args: AddArgs)
    ensures
        with_account(setup, args).default_account is Some,
        with_account(setup, args).accounts.contains_key(args.name@),
        with_account(setup, args).accounts[args.name@] == new_account(args),
{
}

/// Removing an account that was just added gives back the accounts as they were
/// without it; no other account is touched by either. The default is as it was
/// too, where the account was not made the default and was not the default
/// before.
pub proof fn law_remove_undoes_add(setup: Setup, args: AddArgs)
    ensures
        without_account(with_account(setup, args), args.name@).accounts == setup.accounts.remove(
            args.name@,
        ),
        !setup.accounts.contains_key(args.name@) ==> without_account(
            with_account(setup, args),
            args.name@,
        ).accounts == setup.accounts,
        !args.make_default && setup.default_account != Some(args.name@) ==> without_account(
            with_account(setup, args),
            args.name@,
        ).default_account == setup.default_account,
{
    let both = without_account(with_account(setup, args), args.name@);
    assert(both.accounts =~= setup.accounts.remove(args.name@));
    if !setup.accounts.contains_key(args.name@) {
        assert(both.accounts =~= setup.accounts);
    }
}

/// The file never holds a secret of an account that was added: it names the
/// commands that print them, which are those that a Keychain lookup by
/// convention would use, and resolving the account starts with the first.
pub proof fn law_added_account_holds_no_secret(args: AddArgs, macos: bool)
    ensures
        new_account(args).imap_pass is None,
        new_account(args).smtp_pass is None,
        new_account(args).imap_pass_cmd == needed_command(None, None, args.name@ + "-imap"@, true),
        !args.shared_password ==> new_account(args).smtp_pass_cmd == needed_command(
            None,
            None,
            args.name@ + "-smtp"@,
            true,
        ),
        resolution(new_account(args), args.name@, macos, Seq::<Output>::empty()) == Ok::<
            Progress<Resolved>,
            Seq<char>,
        >(Progress::Run(keychain_command(args.name@ + "-imap"@))),
{
}

/// With a shared password both secrets of an added account are printed by the
/// same command.
pub proof fn law_shared_password_is_one_entry(args: AddArgs)
    requires
        args.shared_password,
    ensures
        new_account(args).smtp_pass_cmd == new_account(args).imap_pass_cmd,
{
}

/// An added account is what was asked for: its servers, ports, logins, sender and
/// folder as given, the login standing in for what was not, and for its secrets the
/// commands that print the Keychain entries named after it.
pub proof fn law_added_account_is_what_was_asked_for(args: AddArgs)
    ensures
        ({
            let account = new_account(args);
            &&& account.imap_host == Some(args.imap_host@)
            &&& account.imap_port == Some(args.imap_port)
            &&& account.imap_user == Some(args.imap_user@)
            &&& account.imap_pass is None
            &&& account.smtp_host == Some(args.smtp_host@)
            &&& account.smtp_port == Some(args.smtp_port)
            &&& account.smtp_pass is None
            &&& args.smtp_user matches Some(user) ==> account.smtp_user == Some(user@)
            &&& args.smtp_user is None ==> account.smtp_user == Some(args.imap_user@)
            &&& args.smtp_from matches Some(from) ==> account.smtp_from == Some(from@)
            &&& args.smtp_from is None ==> account.smtp_from == Some(args.imap_user@)
            &&& account.smtp_write_enabled == Some(args.smtp_write_enabled)
            &&& account.max_attachment_bytes is None
            &&& args.sent_folder matches Some(folder) ==> account.sent_folder == Some(folder@)
            &&& args.sent_folder is None ==> account.sent_folder is None
            &&& account.imap_pass_cmd == Some(
                "security find-generic-password -s mail_mcp -a "@ + (args.name@ + "-imap"@)
                    + " -w"@,
            )
            &&& account.smtp_pass_cmd == Some(
                "security find-generic-password -s mail_mcp -a "@ + (args.name@ + (
                if args.shared_password {
                    "-imap"@
                } else {
                    "-smtp"@
                })) + " -w"@,
            )
        }),
{
}

/// Adding an account changes that account alone, and the default only if that was
/// asked for or there was none; removing one takes out that account alone, and the
/// default only if it was that; and setting the default changes nothing else.
pub proof fn law_changes_touch_one_account(
    setup: Setup,
    args: AddArgs,
    name: Seq<char>,
    other: Seq<char>,
)
    ensures
        with_account(setup, args).accounts.contains_key(args.name@),
        with_account(setup, args).accounts[args.name@] == new_account(args),
        other != args.name@ ==> (with_account(setup, args).accounts.contains_key(other)
            <==> setup.accounts.contains_key(other)),
        other != args.name@ && setup.accounts.contains_key(other) ==> with_account(
            setup,
            args,
        ).accounts[other] == setup.accounts[other],
        with_account(setup, args).default_account == if args.make_default || setup.default_account
            is None {
            Some(args.name@)
        } else {
            setup.default_account
        },
        !without_account(setup, name).accounts.contains_key(name),
        other != name ==> (without_account(setup, name).accounts.contains_key(other)
            <==> setup.accounts.contains_key(other)),
        other != name && setup.accounts.contains_key(other) ==> without_account(
            setup,
            name,
        ).accounts[other] == setup.accounts[other],
        without_account(setup, name).default_account == if setup.default_account == Some(name) {
            None
        } else {
            setup.default_account
        },
        with_default(setup, name).default_account == Some(name),
        with_default(setup, name).accounts == setup.accounts,
{
}

/// Settings are known by their default and by each of their accounts.
pub proof fn law_settings_are_known_whole(settings: Settings, name: Seq<char>)
    ensures
        match settings.default_account {
            Some(default) => settings@.default_account == Some(default@),
            None => settings@.default_account is None,
        },
        settings@.accounts.contains_key(name) <==> settings.accounts@.contains_key(name),
        settings.accounts@.contains_key(name) ==> settings@.accounts[name]
            == settings.accounts@[name]@,
{
    lemma_settings_dom(settings);
}

/// Adding an account asks for its IMAP secret, then, unless that is shared, for its
/// SMTP secret, each for the login that it is for and to be stored under the
/// account's name; then the settings are written with the account, and it is said
/// where.
pub proof fn law_adding_asks_and_then_saves(
    action: AccountsAction,
    settings: Settings,
    args: AddArgs,
    stored: nat,
    path: Seq<char>,
)
    requires
        is_add_step(action, settings, args, stored, path),
    ensures
        stored == 0 ==> (action matches AccountsAction::AskSecret {
            prompt,
            entry,
            settings: kept,
            args: same,
        } && prompt@ == "IMAP"@ + " app password for "@ + args.imap_user@ + " <"@ + args.name@
            + ">: "@ && entry@ == args.name@ + "-imap"@ && kept == settings && same == args),
        stored == 1 && !args.shared_password ==> (action matches AccountsAction::AskSecret {
            prompt,
            entry,
            settings: kept,
            args: same,
        } && prompt@ == "SMTP"@ + " app password for "@ + (match args.smtp_user {
            Some(user) => user@,
            None => args.imap_user@,
        }) + " <"@ + args.name@ + ">: "@ && entry@ == args.name@ + "-smtp"@ && kept == settings
            && same == args),
        stored >= 2 || (stored == 1 && args.shared_password) ==> (action matches AccountsAction::Save {
            settings: now,
            report,
        } && now@ == with_account(settings@, args) && report@ == "account '"@ + args.name@
            + "' saved to "@ + path),
{
}

/// Removing an account writes the settings without it, and setting the default
/// writes them with that default; where there is no such account, or no
/// configuration file, or it cannot be read, nothing is written and that is the
/// error.
pub proof fn law_removing_and_setting_the_default(
    removed: Result<AccountsAction, String>,
    set: Result<AccountsAction, String>,
    name: String,
    path: Seq<char>,
    loaded: Result<Option<Settings>, String>,
    env: EnvVars,
)
    requires
        is_accounts_action(removed, AccountsCommand::Remove { name }, path, loaded, env),
        is_accounts_action(set, AccountsCommand::Default { name }, path, loaded, env),
    ensures
        match loaded {
            Err(e) => (removed matches Err(f) && f@ == e@) && (set matches Err(f) && f@ == e@),
            Ok(None) => (removed matches Err(f) && f@ == "no config file at "@ + path) && (
            set matches Err(f) && f@ == "no config file at "@ + path),
            Ok(Some(settings)) => if settings@.accounts.contains_key(name@) {
                &&& removed matches Ok(AccountsAction::Save { settings: now, report }) && now@
                    == without_account(settings@, name@) && report@ == "account '"@ + name@
                    + "' removed"@
                &&& set matches Ok(AccountsAction::Save { settings: now, report }) && now@
                    == with_default(settings@, name@) && report@ == "default account set to '"@
                    + name@ + "'"@
            } else {
                &&& removed matches Err(f) && f@ == "account '"@ + name@ + "' not found"@
                &&& set matches Err(f) && f@ == "account '"@ + name@ + "' not found"@
            },
        },
{
}

/// Listing reports the accounts of the configuration file, or, where it has none,
/// the one that the environment variables describe, if they describe one. A file
/// that cannot be read is the error.
pub proof fn law_listing_reports_the_accounts(
    r: Result<AccountsAction, String>,
    path: Seq<char>,
    loaded: Result<Option<Settings>, String>,
    env: EnvVars,
)
    requires
        is_accounts_action(r, AccountsCommand::List, path, loaded, env),
    ensures
        loaded matches Err(e) ==> (r matches Err(f) && f@ == e@),
        loaded matches Ok(Some(settings)) ==> (settings@.accounts != Map::<
            Seq<char>,
            Account,
        >::empty() ==> (r matches Ok(AccountsAction::Report(report)) && report@ == account_list(
            settings@,
        ))),
        (loaded matches Ok(found) && (found matches Some(settings) ==> settings@.accounts == Map::<
            Seq<char>,
            Account,
        >::empty())) ==> match env_settings(env) {
            Ok(setup) => r matches Ok(AccountsAction::Report(report)) && report@ == account_list(
                setup,
            ),
            Err(_) => r matches Ok(AccountsAction::Report(report)) && report@
                == "no accounts configured"@,
        },
{
    if let Ok(found) = loaded {
        let setup = or_empty(
            match found {
                Some(settings) => Some(settings@),
                None => None,
            },
        );
        if setup.accounts == Map::<Seq<char>, Account>::empty() && env_settings(env) is Err {
            let names = in_order(setup.accounts.dom());
            assert(enumerates(names, setup.accounts.dom()));
            if names.len() > 0 {
                assert(names.contains(names[0]));
                assert(setup.accounts.dom().contains(names[0]));
            }
        }
    }
}

/// Adding starts from the accounts of the configuration file, or from none, and
/// testing takes them, or else the account that the environment variables
/// describe, with the name that was given.
pub proof fn law_adding_and_testing_start_from_the_settings(
    added: Result<AccountsAction, String>,
    tested: Result<AccountsAction, String>,
    args: AddArgs,
    account: Option<String>,
    path: Seq<char>,
    loaded: Result<Option<Settings>, String>,
    env: EnvVars,
)
    requires
        is_accounts_action(added, AccountsCommand::Add(args), path, loaded, env),
        is_accounts_action(tested, AccountsCommand::Test { account }, path, loaded, env),
    ensures
        match loaded {
            Err(e) => (added matches Err(f) && f@ == e@) && (tested matches Err(f) && f@ == e@),
            Ok(found) => {
                &&& added matches Ok(AccountsAction::AskSecret { prompt, entry, settings, args: same })
                    && same == args && (match found {
                    Some(s) => settings@ == s@,
                    None => settings@.default_account is None && settings@.accounts == Map::<
                        Seq<char>,
                        Account,
                    >::empty(),
                }) && is_add_step(added->Ok_0, settings, args, 0, path)
                &&& match found {
                    Some(s) => tested matches Ok(AccountsAction::Test { settings, account: same })
                        && settings@ == s@ && same == account,
                    None => match env_settings(env) {
                        Err(e) => tested matches Err(f) && f@ == e,
                        Ok(setup) => tested matches Ok(
                            AccountsAction::Test { settings, account: same },
                        ) && settings@ == setup && same == account,
                    },
                }
            },
        },
{
}

/// A list of accounts has an entry for each, in the order of their names: with the
/// name, marked if it is the default, the login, and the sender or else the login.
/// Where there is none, that is said.
pub proof fn law_every_account_is_listed(
    setup: Setup,
    names: Seq<Seq<char>>,
    entries: Seq<Seq<char>>,
)
    requires
        enumerates(names, setup.accounts.dom()),
        entries.len() == names.len(),
        forall|i: int|
            0 <= i < names.len() ==> #[trigger] entries[i] == {
                let account = setup.accounts[names[i]];
                let user = match account.imap_user {
                    Some(user) => user,
                    None => Seq::<char>::empty(),
                };
                let from = match account.smtp_from {
                    Some(from) => from,
                    None => user,
                };
                let default = match setup.default_account {
                    Some(default) => default,
                    None => Seq::<char>::empty(),
                };
                names[i] + (if names[i] == default {
                    " (default)"@
                } else {
                    ""@
                }) + "\n  user: "@ + user + "\n  from: "@ + from
            },
    ensures
        names.len() == 0 ==> account_list(setup) == "no accounts configured"@,
        names.len() > 0 ==> account_list(setup) == joined(entries, "\n"@),
{
    crate::names::law_names_in_order(names, setup.accounts.dom());
    let all = names.map_values(|name: Seq<char>| account_entry(setup, name));
    assert forall|i: int| 0 <= i < names.len() implies #[trigger] entries[i] == all[i] by {
        assert(all[i] == account_entry(setup, names[i]));
    }
    assert(entries =~= all);
}

/// What is reported of an account that works names both servers, their ports, the
/// login and the sender.
pub proof fn law_test_report_names_the_servers(account: ResolvedAccount)
    ensures
        login_report(account@) == "IMAP OK: "@ + account.imap_host@ + ":"@ + decimal(
            account.imap_port as nat,
        ) + " as "@ + account.imap_user@ + "\nSMTP target: "@ + account.smtp_host@ + ":"@ + decimal(
            account.smtp_port as nat,
        ) + " (from "@ + account.smtp_from@ + ")"@,
{
}

/// A secret is stored in the Keychain under the program's name and the entry's,
/// in place of what was there, and as it is.
pub proof fn law_secrets_are_stored_as_they_are(account: Seq<char>, value: Seq<char>)
    ensures
        store_arguments(account, value).len() == 8,
        store_arguments(account, value)[0] == "add-generic-password"@,
        store_arguments(account, value)[1] == "-U"@,
        store_arguments(account, value)[2] == "-s"@,
        store_arguments(account, value)[3] == "mail_mcp"@,
        store_arguments(account, value)[4] == "-a"@,
        store_arguments(account, value)[5] == account,
        store_arguments(account, value)[6] == "-w"@,
        store_arguments(account, value)[7] == value,
{
}

/// Without a command the default account is served, and with one what it says is
/// done.
pub proof fn law_the_command_line_is_followed(cli: Cli, r: Dispatch)
    requires
        call_ensures(Cli::dispatch, (cli,), r),
    ensures
        match cli.command {
            None => r == Dispatch::Serve(None),
            Some(Command::Serve(args)) => r == Dispatch::Serve(args.account),
            Some(Command::Accounts(args)) => r == Dispatch::Accounts(args.command),
        },
{
}

/// Commands about the accounts do what they say, on the file that there is, or else
/// on one in the working directory.
pub proof fn law_account_commands_do_what_they_say(
    command: AccountsCommand,
    path: &str,
    loaded: Result<Option<Settings>, String>,
    env: &EnvVars,
    r: Result<AccountsAction, String>,
    place: String,
)
    requires
        call_ensures(run_accounts, (command, path, loaded, env), r),
        call_ensures(config_or_default_path, (env,), place),
    ensures
        is_accounts_action(r, command, path@, loaded, *env),
        match config_location(*env) {
            Some(at) => place@ == at,
            None => place@ == "mail_mcp.toml"@,
        },
{
}

/// A typed secret is used without the white space around it, and refused exactly if
/// it is nothing else; on macOS it is stored by the program that does that, and the
/// failure of that is the error; elsewhere nothing is stored.
pub proof fn law_typed_secrets_are_accepted_and_stored(
    line: &str,
    accepted: Result<String, String>,
    account: &str,
    value: &str,
    macos: bool,
    success: Option<bool>,
    stored: Result<StoreStep, String>,
)
    requires
        call_ensures(accept_secret, (line,), accepted),
        call_ensures(store_keychain, (account, value, macos, success), stored),
    ensures
        accepted is Err <==> forall|i: int|
            0 <= i < line@.len() ==> text::white_space(#[trigger] line@[i]),
        accepted matches Err(e) ==> e@ == "empty secret"@,
        accepted matches Ok(secret) ==> secret@ == trimmed(line@),
        !macos ==> (stored matches Ok(StoreStep::Done)),
        macos && success is None ==> (stored matches Ok(StoreStep::Run { program, args })
            && program@ == "security"@ && args@.len() == 8 && args@[5]@ == account@ && args@[7]@
            == value@),
        macos && success == Some(true) ==> (stored matches Ok(StoreStep::Done)),
        macos && success == Some(false) ==> (stored matches Err(e) && e@
            == "failed to store Keychain entry for "@ + account@),
{
    text::law_only_white_space_is_trimmed_away(line@);
    if let Ok(StoreStep::Run { program, args }) = stored {
        if macos && success is None {
            assert(views(args@).len() == args@.len());
            assert(views(args@)[5] == args@[5]@);
            assert(views(args@)[7] == args@[7]@);
        }
    }
}

/// Testing an account succeeds exactly if the login worked and the SMTP server can
/// be reached, and else says which did not, and why.
pub proof fn law_testing_covers_both_servers(
    account: &ResolvedAccount,
    login: Result<(), String>,
    reach: Result<(), String>,
    r: Result<String, String>,
)
    requires
        call_ensures(test_account, (account, login, reach), r),
    ensures
        r is Ok <==> login is Ok && reach is Ok,
        login matches Err(e) ==> (r matches Err(f) && f@ == "IMAP login failed: "@ + e@),
        login is Ok ==> (reach matches Err(e) ==> (r matches Err(f) && f@
            == "SMTP not reachable: "@ + e@)),
        r matches Ok(report) ==> report@ == login_report(account@),
{
}

}
