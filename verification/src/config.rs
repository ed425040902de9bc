//! Account configuration: accounts as written down, the defaults that complete
//! them, environment variables as a fallback, and a cache of what was resolved.
use std::sync::Arc;
use vstd::prelude::*;

use crate::mime::text_of;
use crate::names::NameMap;
use crate::path;
use crate::path::below;
use crate::secret;
use crate::secret::{
    needed_command, secret_step, CommandOutput, Output, Progress, Step,
};
use crate::text;
use crate::text::{lowered, trimmed, unsigned};

verus! {

/// One mail account as written down. Every field is optional; resolving the
/// account fills in defaults.
#[derive(Debug)]
pub struct AccountConfig {
    pub imap_host: Option<String>,
    pub imap_port: Option<u16>,
    pub imap_user: Option<String>,
    /// Inline secret (discouraged; prefer `imap_pass_cmd`).
    pub imap_pass: Option<String>,
    /// Shell command whose output is the secret.
    pub imap_pass_cmd: Option<String>,
    pub smtp_host: Option<String>,
    pub smtp_port: Option<u16>,
    pub smtp_user: Option<String>,
    pub smtp_pass: Option<String>,
    pub smtp_pass_cmd: Option<String>,
    /// `From:` header. Set it to an alias to send as that.
    pub smtp_from: Option<String>,
    pub smtp_write_enabled: Option<bool>,
    pub max_attachment_bytes: Option<usize>,
    pub sent_folder: Option<String>,
}

/// An `AccountConfig` as texts.
#[verifier::ext_equal]
pub struct Account {
    pub imap_host: Option<Seq<char>>,
    pub imap_port: Option<u16>,
    pub imap_user: Option<Seq<char>>,
    pub imap_pass: Option<Seq<char>>,
    pub imap_pass_cmd: Option<Seq<char>>,
    pub smtp_host: Option<Seq<char>>,
    pub smtp_port: Option<u16>,
    pub smtp_user: Option<Seq<char>>,
    pub smtp_pass: Option<Seq<char>>,
    pub smtp_pass_cmd: Option<Seq<char>>,
    pub smtp_from: Option<Seq<char>>,
    pub smtp_write_enabled: Option<bool>,
    pub max_attachment_bytes: Option<usize>,
    pub sent_folder: Option<Seq<char>>,
}

impl View for AccountConfig {
    type V = Account;

    open spec fn view(&self) -> Account {
        Account {
            imap_host: text_of(self.imap_host),
            imap_port: self.imap_port,
            imap_user: text_of(self.imap_user),
            imap_pass: text_of(self.imap_pass),
            imap_pass_cmd: text_of(self.imap_pass_cmd),
            smtp_host: text_of(self.smtp_host),
            smtp_port: self.smtp_port,
            smtp_user: text_of(self.smtp_user),
            smtp_pass: text_of(self.smtp_pass),
            smtp_pass_cmd: text_of(self.smtp_pass_cmd),
            smtp_from: text_of(self.smtp_from),
            smtp_write_enabled: self.smtp_write_enabled,
            max_attachment_bytes: self.max_attachment_bytes,
            sent_folder: text_of(self.sent_folder),
        }
    }
}

impl Clone for AccountConfig {
    fn clone(&self) -> (r: Self)
        ensures
            r@ == self@,
    {
        AccountConfig {
            imap_host: self.imap_host.clone(),
            imap_port: self.imap_port,
            imap_user: self.imap_user.clone(),
            imap_pass: self.imap_pass.clone(),
            imap_pass_cmd: self.imap_pass_cmd.clone(),
            smtp_host: self.smtp_host.clone(),
            smtp_port: self.smtp_port,
            smtp_user: self.smtp_user.clone(),
            smtp_pass: self.smtp_pass.clone(),
            smtp_pass_cmd: self.smtp_pass_cmd.clone(),
            smtp_from: self.smtp_from.clone(),
            smtp_write_enabled: self.smtp_write_enabled,
            max_attachment_bytes: self.max_attachment_bytes,
            sent_folder: self.sent_folder.clone(),
        }
    }
}

impl Default for AccountConfig {
    fn default() -> (r: Self)
        ensures
            r@ == (Account {
                imap_host: None,
                imap_port: None,
                imap_user: None,
                imap_pass: None,
                imap_pass_cmd: None,
                smtp_host: None,
                smtp_port: None,
                smtp_user: None,
                smtp_pass: None,
                smtp_pass_cmd: None,
                smtp_from: None,
                smtp_write_enabled: None,
                max_attachment_bytes: None,
                sent_folder: None,
            }),
    {
        AccountConfig {
            imap_host: None,
            imap_port: None,
            imap_user: None,
            imap_pass: None,
            imap_pass_cmd: None,
            smtp_host: None,
            smtp_port: None,
            smtp_user: None,
            smtp_pass: None,
            smtp_pass_cmd: None,
            smtp_from: None,
            smtp_write_enabled: None,
            max_attachment_bytes: None,
            sent_folder: None,
        }
    }
}

/// An account with every field filled in.
#[derive(Debug)]
pub struct ResolvedAccount {
    pub imap_host: String,
    pub imap_port: u16,
    pub imap_user: String,
    pub imap_pass: String,
    pub smtp_host: String,
    pub smtp_port: u16,
    pub smtp_user: String,
    pub smtp_pass: String,
    pub smtp_from: String,
    pub smtp_write_enabled: bool,
    pub max_attachment_bytes: usize,
    pub sent_folder: String,
}

/// A `ResolvedAccount` as texts.
#[verifier::ext_equal]
pub struct Resolved {
    pub imap_host: Seq<char>,
    pub imap_port: u16,
    pub imap_user: Seq<char>,
    pub imap_pass: Seq<char>,
    pub smtp_host: Seq<char>,
    pub smtp_port: u16,
    pub smtp_user: Seq<char>,
    pub smtp_pass: Seq<char>,
    pub smtp_from: Seq<char>,
    pub smtp_write_enabled: bool,
    pub max_attachment_bytes: usize,
    pub sent_folder: Seq<char>,
}

impl View for ResolvedAccount {
    type V = Resolved;

    open spec fn view(&self) -> Resolved {
        Resolved {
            imap_host: self.imap_host@,
            imap_port: self.imap_port,
            imap_user: self.imap_user@,
            imap_pass: self.imap_pass@,
            smtp_host: self.smtp_host@,
            smtp_port: self.smtp_port,
            smtp_user: self.smtp_user@,
            smtp_pass: self.smtp_pass@,
            smtp_from: self.smtp_from@,
            smtp_write_enabled: self.smtp_write_enabled,
            max_attachment_bytes: self.max_attachment_bytes,
            sent_folder: self.sent_folder@,
        }
    }
}

impl Clone for ResolvedAccount {
    fn clone(&self) -> (r: Self)
        ensures
            r@ == self@,
    {
        ResolvedAccount {
            imap_host: self.imap_host.clone(),
            imap_port: self.imap_port,
            imap_user: self.imap_user.clone(),
            imap_pass: self.imap_pass.clone(),
            smtp_host: self.smtp_host.clone(),
            smtp_port: self.smtp_port,
            smtp_user: self.smtp_user.clone(),
            smtp_pass: self.smtp_pass.clone(),
            smtp_from: self.smtp_from.clone(),
            smtp_write_enabled: self.smtp_write_enabled,
            max_attachment_bytes: self.max_attachment_bytes,
            sent_folder: self.sent_folder.clone(),
        }
    }
}

/// The accounts and which of them is the default.
pub struct Settings {
    pub default_account: Option<String>,
    pub accounts: NameMap<AccountConfig>,
}

/// A `Settings` as texts.
#[verifier::ext_equal]
pub struct Setup {
    pub default_account: Option<Seq<char>>,
    pub accounts: Map<Seq<char>, Account>,
}

impl View for Settings {
    type V = Setup;

    open spec fn view(&self) -> Setup {
        Setup {
            default_account: text_of(self.default_account),
            accounts: self.accounts@.map_values(|a: AccountConfig| a@),
        }
    }
}

impl Default for Settings {
    fn default() -> (r: Self)
        ensures
            r@ == (Setup { default_account: None, accounts: Map::empty() }),
    {
        let r = Settings { default_account: None, accounts: NameMap::new() };
        assert(r@.accounts =~= Map::empty());
        r
    }
}

/// The largest attachment that is sent or saved by default: 25 MiB.
pub const DEFAULT_MAX_ATTACHMENT_BYTES: usize = 26_214_400;

/// The value, or else the default.
pub open spec fn or_default(value: Option<Seq<char>>, default: Seq<char>) -> Seq<char> {
    match value {
        Some(v) => v,
        None => default,
    }
}

/// The value, or else the default.
pub(crate) fn text_or(value: &Option<String>, default: &str) -> (r: String)
    ensures
        r@ == or_default(text_of(*value), default@),
{
    match value {
        Some(v) => v.clone(),
        None => default.to_string(),
    }
}

/// The folder for sent mail at a provider.
pub open spec fn sent_folder_at(imap_host: Seq<char>) -> Seq<char> {
    if lowered(imap_host) == lowered("imap.one.com"@) {
        "INBOX.Sent"@
    } else {
        "Sent"@
    }
}

/// The folder for sent mail at a provider.
pub fn default_sent_folder(imap_host: &str) -> (r: String)
    ensures
        r@ == sent_folder_at(imap_host@),
{
    if text::same_ignoring_case(imap_host, "imap.one.com") {
        "INBOX.Sent".to_string()
    } else {
        "Sent".to_string()
    }
}

/// An account completed by the defaults and its secrets.
pub open spec fn completed(
    account: Account,
    imap_user: Seq<char>,
    imap_pass: Seq<char>,
    smtp_pass: Seq<char>,
) -> Resolved {
    let imap_host = or_default(account.imap_host, "imap.gmail.com"@);
    Resolved {
        imap_host,
        imap_port: match account.imap_port {
            Some(port) => port,
            None => 993,
        },
        imap_user,
        imap_pass,
        smtp_host: or_default(account.smtp_host, "smtp.gmail.com"@),
        smtp_port: match account.smtp_port {
            Some(port) => port,
            None => 587,
        },
        smtp_user: or_default(account.smtp_user, imap_user),
        smtp_pass,
        smtp_from: or_default(account.smtp_from, imap_user),
        smtp_write_enabled: account.smtp_write_enabled == Some(true),
        max_attachment_bytes: match account.max_attachment_bytes {
            Some(limit) => limit,
            None => DEFAULT_MAX_ATTACHMENT_BYTES,
        },
        sent_folder: or_default(account.sent_folder, sent_folder_at(imap_host)),
    }
}

/// The output at a place, if that many commands have run.
pub open spec fn nth_output(outputs: Seq<Output>, i: int) -> Option<Output> {
    if 0 <= i < outputs.len() {
        Some(outputs[i])
    } else {
        None
    }
}

/// The outputs of the commands that have run.
pub open spec fn output_views(outputs: Seq<CommandOutput>) -> Seq<Output> {
    outputs.map_values(|o: CommandOutput| o@)
}

/// The next step to the SMTP secret of an account, `used` outputs having gone
/// into its IMAP secret. Where nothing is set for SMTP, it is the same secret.
pub open spec fn smtp_step(
    account: Account,
    name: Seq<char>,
    imap_pass: Seq<char>,
    macos: bool,
    outputs: Seq<Output>,
    used: int,
) -> Result<Progress<Seq<char>>, Seq<char>> {
    if account.smtp_pass is None && account.smtp_pass_cmd is None {
        Ok(Progress::Done(imap_pass))
    } else {
        secret_step(
            account.smtp_pass,
            account.smtp_pass_cmd,
            name + "-smtp"@,
            macos,
            nth_output(outputs, used),
        )
    }
}

/// The next step in resolving the account `name`, after commands with these
/// outputs: its IMAP secret, then its SMTP secret, then the account.
pub open spec fn resolution(
    account: Account,
    name: Seq<char>,
    macos: bool,
    outputs: Seq<Output>,
) -> Result<Progress<Resolved>, Seq<char>> {
    match account.imap_user {
        None => Err("account '"@ + name + "': imap_user is required"@),
        Some(imap_user) => match secret_step(
            account.imap_pass,
            account.imap_pass_cmd,
            name + "-imap"@,
            macos,
            nth_output(outputs, 0),
        ) {
            Err(e) => Err(e),
            Ok(Progress::Run(command)) => Ok(Progress::Run(command)),
            Ok(Progress::Done(imap_pass)) => match smtp_step(
                account,
                name,
                imap_pass,
                macos,
                outputs,
                imap_outputs(account, name, macos),
            ) {
                Err(e) => Err(e),
                Ok(Progress::Run(command)) => Ok(Progress::Run(command)),
                Ok(Progress::Done(smtp_pass)) => Ok(
                    Progress::Done(completed(account, imap_user, imap_pass, smtp_pass)),
                ),
            },
        },
    }
}

/// How many outputs go into the IMAP secret of an account.
pub open spec fn imap_outputs(account: Account, name: Seq<char>, macos: bool) -> int {
    if needed_command(account.imap_pass, account.imap_pass_cmd, name + "-imap"@, macos) is Some {
        1
    } else {
        0
    }
}

/// A step in resolving an account, by its texts.
pub open spec fn resolution_view(r: Result<Step<ResolvedAccount>, String>) -> Result<
    Progress<Resolved>,
    Seq<char>,
> {
    match r {
        Ok(Step::Run(command)) => Ok(Progress::Run(command@)),
        Ok(Step::Done(account)) => Ok(Progress::Done(account@)),
        Err(e) => Err(e@),
    }
}

/// The output at a place, if that many commands have run.
fn output_at(outputs: &Vec<CommandOutput>, i: usize) -> (r: Option<&CommandOutput>)
    ensures
        secret::output_view(r) == nth_output(output_views(outputs@), i as int),
{
    if i < outputs.len() {
        Some(&outputs[i])
    } else {
        None
    }
}

impl AccountConfig {
    /// Completes an account with the defaults and its secrets.
    fn complete(&self, imap_user: &str, imap_pass: String, smtp_pass: String) -> (r:
        ResolvedAccount)
        ensures
            r@ == completed(self@, imap_user@, imap_pass@, smtp_pass@),
    {
        let imap_host = text_or(&self.imap_host, "imap.gmail.com");
        let sent_folder = match &self.sent_folder {
            Some(folder) => folder.clone(),
            None => default_sent_folder(imap_host.as_str()),
        };
        ResolvedAccount {
            imap_host,
            imap_port: match self.imap_port {
                Some(port) => port,
                None => 993,
            },
            imap_user: imap_user.to_string(),
            imap_pass,
            smtp_host: text_or(&self.smtp_host, "smtp.gmail.com"),
            smtp_port: match self.smtp_port {
                Some(port) => port,
                None => 587,
            },
            smtp_user: text_or(&self.smtp_user, imap_user),
            smtp_pass,
            smtp_from: text_or(&self.smtp_from, imap_user),
            smtp_write_enabled: match self.smtp_write_enabled {
                Some(enabled) => enabled,
                None => false,
            },
            max_attachment_bytes: match self.max_attachment_bytes {
                Some(limit) => limit,
                None => DEFAULT_MAX_ATTACHMENT_BYTES,
            },
            sent_folder,
        }
    }

    /// The next step in resolving the account: the command that one of its
    /// secrets takes, as long as its output is not among `outputs`, and then
    /// the account.
    pub fn resolve(&self, name: &str, macos: bool, outputs: &Vec<CommandOutput>) -> (r: Result<
        Step<ResolvedAccount>,
        String,
    >)
        ensures
            resolution_view(r) == resolution(self@, name@, macos, output_views(outputs@)),
    {
        let imap_user = match &self.imap_user {
            Some(user) => user,
            None => return Err(
                "account '".to_string().concat(name).concat("': imap_user is required"),
            ),
        };
        let entry = name.to_string().concat("-imap");
        let imap_pass = match secret::resolve_secret(
            &self.imap_pass,
            &self.imap_pass_cmd,
            entry.as_str(),
            macos,
            output_at(outputs, 0),
        ) {
            Err(e) => return Err(e),
            Ok(Step::Run(command)) => return Ok(Step::Run(command)),
            Ok(Step::Done(secret)) => secret,
        };
        let inline = match &self.imap_pass {
            Some(value) => !value.as_str().is_empty(),
            None => false,
        };
        let used: usize = if !inline && (self.imap_pass_cmd.is_some() || macos) {
            1
        } else {
            0
        };
        assert(used == imap_outputs(self@, name@, macos));
        let smtp_pass = if self.smtp_pass.is_none() && self.smtp_pass_cmd.is_none() {
            imap_pass.clone()
        } else {
            let entry = name.to_string().concat("-smtp");
            match secret::resolve_secret(
                &self.smtp_pass,
                &self.smtp_pass_cmd,
                entry.as_str(),
                macos,
                output_at(outputs, used),
            ) {
                Err(e) => return Err(e),
                Ok(Step::Run(command)) => return Ok(Step::Run(command)),
                Ok(Step::Done(secret)) => secret,
            }
        };
        Ok(Step::Done(self.complete(imap_user.as_str(), imap_pass, smtp_pass)))
    }
}

/// The name of the account that is meant: the one given, or else the default.
pub open spec fn meant(setup: Setup, name: Option<Seq<char>>) -> Option<Seq<char>> {
    if name is Some {
        name
    } else {
        setup.default_account
    }
}

/// The next step in resolving a named account, or the default one.
pub open spec fn settings_resolution(
    setup: Setup,
    name: Option<Seq<char>>,
    macos: bool,
    outputs: Seq<Output>,
) -> Result<Progress<Resolved>, Seq<char>> {
    match meant(setup, name) {
        None => Err("no account given and no default_account set"@),
        Some(key) => if setup.accounts.contains_key(key) {
            resolution(setup.accounts[key], key, macos, outputs)
        } else {
            Err("unknown account '"@ + key + "'"@)
        },
    }
}

/// The text of an optional name.
pub open spec fn name_text(name: Option<&str>) -> Option<Seq<char>> {
    match name {
        Some(n) => Some(n@),
        None => None,
    }
}

/// What was found where the configuration is looked for.
pub enum ConfigFile {
    /// No file.
    Missing,
    /// A file that cannot be read, for this reason.
    Unreadable(String),
    /// A file that does not hold settings, for this reason.
    Invalid(String),
    /// A file with these settings.
    Holds(Settings),
}

/// Settings that were loaded, if there were any, or the text of the error.
pub open spec fn loaded_view(r: Result<Option<Settings>, String>) -> Result<
    Option<Setup>,
    Seq<char>,
> {
    match r {
        Ok(Some(settings)) => Ok(Some(settings@)),
        Ok(None) => Ok(None),
        Err(e) => Err(e@),
    }
}

/// Settings, or the text of the error.
pub open spec fn settings_view(r: Result<Settings, String>) -> Result<Setup, Seq<char>> {
    match r {
        Ok(settings) => Ok(settings@),
        Err(e) => Err(e@),
    }
}

impl Settings {
    /// The settings in the configuration file at `path`, or none where there is
    /// no such path or no such file.
    pub fn load(path: Option<&str>, file: ConfigFile) -> (r: Result<Option<Settings>, String>)
        ensures
            loaded_view(r) == match path {
                None => Ok(None),
                Some(path) => match file {
                    ConfigFile::Missing => Ok(None),
                    ConfigFile::Unreadable(e) => Err("cannot read "@ + path@ + ": "@ + e@),
                    ConfigFile::Invalid(e) => Err("invalid config "@ + path@ + ": "@ + e@),
                    ConfigFile::Holds(settings) => Ok(Some(settings@)),
                },
            },
    {
        match path {
            None => Ok(None),
            Some(path) => match file {
                ConfigFile::Missing => Ok(None),
                ConfigFile::Unreadable(e) => Err(
                    "cannot read ".to_string().concat(path).concat(": ").concat(e.as_str()),
                ),
                ConfigFile::Invalid(e) => Err(
                    "invalid config ".to_string().concat(path).concat(": ").concat(e.as_str()),
                ),
                ConfigFile::Holds(settings) => Ok(Some(settings)),
            },
        }
    }

    /// The name of the account that is meant.
    fn key(&self, name: Option<&str>) -> (r: Option<String>)
        ensures
            text_of(r) == meant(self@, name_text(name)),
    {
        match name {
            Some(name) => Some(name.to_string()),
            None => self.default_account.clone(),
        }
    }

    /// The next step in resolving a named account, or the default one.
    pub fn resolve(&self, name: Option<&str>, macos: bool, outputs: &Vec<CommandOutput>) -> (r:
        Result<Step<ResolvedAccount>, String>)
        ensures
            resolution_view(r) == settings_resolution(
                self@,
                name_text(name),
                macos,
                output_views(outputs@),
            ),
    {
        let key = match self.key(name) {
            Some(key) => key,
            None => return Err("no account given and no default_account set".to_string()),
        };
        match self.accounts.get(key.as_str()) {
            Some(account) => account.resolve(key.as_str(), macos, outputs),
            None => Err("unknown account '".to_string().concat(key.as_str()).concat("'")),
        }
    }
}

/// The environment variables that configure the program, where they are set.
pub struct EnvVars {
    pub mail_mcp_config: Option<String>,
    pub xdg_config_home: Option<String>,
    pub home: Option<String>,
    pub imap_host: Option<String>,
    pub imap_port: Option<String>,
    pub imap_user: Option<String>,
    pub imap_pass: Option<String>,
    pub smtp_host: Option<String>,
    pub smtp_port: Option<String>,
    pub smtp_user: Option<String>,
    pub smtp_pass: Option<String>,
    pub smtp_from: Option<String>,
    pub mail_smtp_write_enabled: Option<String>,
    pub mail_max_attachment_bytes: Option<String>,
    pub mail_sent_folder: Option<String>,
}

/// Where the configuration file is: where `MAIL_MCP_CONFIG` says, or else below
/// `XDG_CONFIG_HOME`, or else below the home directory. An empty variable counts
/// as not set, but for `HOME`.
pub open spec fn config_location(env: EnvVars) -> Option<Seq<char>> {
    let base = if env.xdg_config_home matches Some(dir) && dir@.len() > 0 {
        Some(env.xdg_config_home->0@)
    } else {
        match env.home {
            Some(home) => Some(below(home@, ".config"@)),
            None => None,
        }
    };
    if env.mail_mcp_config matches Some(path) && path@.len() > 0 {
        Some(env.mail_mcp_config->0@)
    } else {
        match base {
            Some(base) => Some(below(below(base, "mail_mcp"@), "config.toml"@)),
            None => None,
        }
    }
}

/// Where the configuration file is, if that can be said.
pub fn config_path(env: &EnvVars) -> (r: Option<String>)
    ensures
        text_of(r) == config_location(*env),
{
    if let Some(path) = &env.mail_mcp_config {
        if !path.as_str().is_empty() {
            return Some(path.clone());
        }
    }
    let xdg = match &env.xdg_config_home {
        Some(dir) => if dir.as_str().is_empty() {
            None
        } else {
            Some(dir.clone())
        },
        None => None,
    };
    let base = match xdg {
        Some(dir) => dir,
        None => match &env.home {
            Some(home) => path::join(home.as_str(), ".config"),
            None => return None,
        },
    };
    Some(path::join(path::join(base.as_str(), "mail_mcp").as_str(), "config.toml"))
}

/// Whether a switch is set: `1`, `true`, `yes` or `on`, in any case.
pub open spec fn is_on(value: Seq<char>) -> bool {
    let v = lowered(trimmed(value));
    v == "1"@ || v == "true"@ || v == "yes"@ || v == "on"@
}

/// Whether a switch is set.
pub fn parse_bool(value: &str) -> (r: bool)
    ensures
        r == is_on(value@),
{
    let v = text::to_lower(text::trim(value).as_str());
    let v = v.as_str();
    text::same(v, "1") || text::same(v, "true") || text::same(v, "yes") || text::same(v, "on")
}

/// The port that a variable holds, if it holds one.
pub open spec fn port_in(value: Option<String>) -> Option<u16> {
    match value {
        Some(v) => match unsigned(v@, 65535) {
            Some(n) => Some(n as u16),
            None => None,
        },
        None => None,
    }
}

/// The port that a variable holds, if it holds one.
fn parse_port(value: &Option<String>) -> (r: Option<u16>)
    ensures
        r == port_in(*value),
{
    match value {
        Some(v) => match text::parse_unsigned(v.as_str(), 65535) {
            Some(n) => Some(n as u16),
            None => None,
        },
        None => None,
    }
}

/// The size that a variable holds, if it holds one.
pub open spec fn size_in(value: Option<String>) -> Option<usize> {
    match value {
        Some(v) => match unsigned(v@, usize::MAX as nat) {
            Some(n) => Some(n as usize),
            None => None,
        },
        None => None,
    }
}

/// The size that a variable holds, if it holds one.
fn parse_size(value: &Option<String>) -> (r: Option<usize>)
    ensures
        r == size_in(*value),
{
    match value {
        Some(v) => match text::parse_unsigned(v.as_str(), usize::MAX as u64) {
            Some(n) => Some(n as usize),
            None => None,
        },
        None => None,
    }
}

/// Whether a variable switches something on; nothing is said where it is not
/// set.
pub open spec fn switch_in(value: Option<String>) -> Option<bool> {
    match value {
        Some(v) => Some(is_on(v@)),
        None => None,
    }
}

/// The account that the environment variables describe.
pub open spec fn env_account(env: EnvVars) -> Account {
    Account {
        imap_host: text_of(env.imap_host),
        imap_port: port_in(env.imap_port),
        imap_user: text_of(env.imap_user),
        imap_pass: text_of(env.imap_pass),
        imap_pass_cmd: None,
        smtp_host: text_of(env.smtp_host),
        smtp_port: port_in(env.smtp_port),
        smtp_user: text_of(env.smtp_user),
        smtp_pass: text_of(env.smtp_pass),
        smtp_pass_cmd: None,
        smtp_from: text_of(env.smtp_from),
        smtp_write_enabled: switch_in(env.mail_smtp_write_enabled),
        max_attachment_bytes: size_in(env.mail_max_attachment_bytes),
        sent_folder: text_of(env.mail_sent_folder),
    }
}

/// The settings that the environment variables describe: one account, called
/// `default`, that is the default.
pub open spec fn env_settings(env: EnvVars) -> Result<Setup, Seq<char>> {
    if env.imap_user is None {
        Err("IMAP_USER not set"@)
    } else if env.imap_pass is None {
        Err("IMAP_PASS not set"@)
    } else {
        Ok(
            Setup {
                default_account: Some("default"@),
                accounts: Map::empty().insert("default"@, env_account(env)),
            },
        )
    }
}

/// Settings with a single account, from environment variables.
pub fn settings_from_env(env: &EnvVars) -> (r: Result<Settings, String>)
    ensures
        settings_view(r) == env_settings(*env),
{
    if env.imap_user.is_none() {
        return Err("IMAP_USER not set".to_string());
    }
    if env.imap_pass.is_none() {
        return Err("IMAP_PASS not set".to_string());
    }
    let account = AccountConfig {
        imap_host: env.imap_host.clone(),
        imap_port: parse_port(&env.imap_port),
        imap_user: env.imap_user.clone(),
        imap_pass: env.imap_pass.clone(),
        imap_pass_cmd: None,
        smtp_host: env.smtp_host.clone(),
        smtp_port: parse_port(&env.smtp_port),
        smtp_user: env.smtp_user.clone(),
        smtp_pass: env.smtp_pass.clone(),
        smtp_pass_cmd: None,
        smtp_from: env.smtp_from.clone(),
        smtp_write_enabled: match &env.mail_smtp_write_enabled {
            Some(v) => Some(parse_bool(v.as_str())),
            None => None,
        },
        max_attachment_bytes: parse_size(&env.mail_max_attachment_bytes),
        sent_folder: env.mail_sent_folder.clone(),
    };
    assert(account@ =~= env_account(*env));
    let mut accounts: NameMap<AccountConfig> = NameMap::new();
    accounts.insert("default".to_string(), account);
    let settings = Settings { default_account: Some("default".to_string()), accounts };
    assert(settings@.accounts =~= Map::empty().insert("default"@, env_account(*env)));
    Ok(settings)
}

/// The settings that were loaded, or those of the environment variables where
/// there is no configuration file.
pub fn load_settings(loaded: Result<Option<Settings>, String>, env: &EnvVars) -> (r: Result<
    Settings,
    String,
>)
    ensures
        settings_view(r) == match loaded_view(loaded) {
            Err(e) => Err(e),
            Ok(Some(setup)) => Ok(setup),
            Ok(None) => env_settings(*env),
        },
{
    match loaded {
        Err(e) => Err(e),
        Ok(Some(settings)) => Ok(settings),
        Ok(None) => settings_from_env(env),
    }
}

/// The account that the environment variables describe, completed. The SMTP
/// secret is the IMAP secret where it is not set.
pub open spec fn env_resolved(env: EnvVars) -> Result<Resolved, Seq<char>> {
    match (env.imap_user, env.imap_pass) {
        (None, _) => Err("IMAP_USER not set"@),
        (_, None) => Err("IMAP_PASS not set"@),
        (Some(user), Some(pass)) => Ok(
            completed(
                env_account(env),
                user@,
                pass@,
                or_default(text_of(env.smtp_pass), pass@),
            ),
        ),
    }
}

impl ResolvedAccount {
    /// The account that the environment variables describe.
    pub fn from_env(env: &EnvVars) -> (r: Result<ResolvedAccount, String>)
        ensures
            match r {
                Ok(account) => env_resolved(*env) == Ok::<Resolved, Seq<char>>(account@),
                Err(e) => env_resolved(*env) == Err::<Resolved, Seq<char>>(e@),
            },
    {
        let imap_user = match &env.imap_user {
            Some(user) => user,
            None => return Err("IMAP_USER not set".to_string()),
        };
        let imap_pass = match &env.imap_pass {
            Some(pass) => pass,
            None => return Err("IMAP_PASS not set".to_string()),
        };
        let smtp_write_enabled = match &env.mail_smtp_write_enabled {
            Some(v) => parse_bool(v.as_str()),
            None => false,
        };
        let max_attachment_bytes: usize = match parse_size(&env.mail_max_attachment_bytes) {
            Some(limit) => limit,
            None => DEFAULT_MAX_ATTACHMENT_BYTES,
        };
        let imap_host = text_or(&env.imap_host, "imap.gmail.com");
        let sent_folder = match &env.mail_sent_folder {
            Some(folder) => folder.clone(),
            None => default_sent_folder(imap_host.as_str()),
        };
        let account = ResolvedAccount {
            imap_host,
            imap_port: match parse_port(&env.imap_port) {
                Some(port) => port,
                None => 993,
            },
            imap_user: imap_user.clone(),
            imap_pass: imap_pass.clone(),
            smtp_host: text_or(&env.smtp_host, "smtp.gmail.com"),
            smtp_port: match parse_port(&env.smtp_port) {
                Some(port) => port,
                None => 587,
            },
            smtp_user: text_or(&env.smtp_user, imap_user.as_str()),
            smtp_pass: text_or(&env.smtp_pass, imap_pass.as_str()),
            smtp_from: text_or(&env.smtp_from, imap_user.as_str()),
            smtp_write_enabled,
            max_attachment_bytes,
            sent_folder,
        };
        assert(account@ =~= env_resolved(*env)->Ok_0);
        Ok(account)
    }
}

/// Accounts that were resolved before, by name.
pub struct ResolveCache {
    entries: NameMap<Arc<ResolvedAccount>>,
}

impl View for ResolveCache {
    type V = Map<Seq<char>, Resolved>;

    closed spec fn view(&self) -> Map<Seq<char>, Resolved> {
        self.entries@.map_values(|a: Arc<ResolvedAccount>| (*a)@)
    }
}

impl ResolveCache {
    /// A cache that holds nothing.
    pub fn new() -> (r: Self)
        ensures
            r@ == Map::<Seq<char>, Resolved>::empty(),
    {
        let r = ResolveCache { entries: NameMap::new() };
        assert(r@ =~= Map::empty());
        r
    }
}

/// The next step in resolving an account with a cache, and the cache after it.
/// An account that was resolved before is taken from the cache; only one that
/// could be resolved goes into it.
pub open spec fn cached_resolution(
    cache: Map<Seq<char>, Resolved>,
    setup: Setup,
    name: Option<Seq<char>>,
    macos: bool,
    outputs: Seq<Output>,
) -> (Result<Progress<Resolved>, Seq<char>>, Map<Seq<char>, Resolved>) {
    match meant(setup, name) {
        Some(key) if cache.contains_key(key) => (Ok(Progress::Done(cache[key])), cache),
        key => {
            let r = settings_resolution(setup, name, macos, outputs);
            match r {
                Ok(Progress::Done(account)) => (r, cache.insert(key->0, account)),
                _ => (r, cache),
            }
        },
    }
}

/// A step in resolving a shared account, by its texts.
pub open spec fn shared_view(r: Result<Step<Arc<ResolvedAccount>>, String>) -> Result<
    Progress<Resolved>,
    Seq<char>,
> {
    match r {
        Ok(Step::Run(command)) => Ok(Progress::Run(command@)),
        Ok(Step::Done(account)) => Ok(Progress::Done((*account)@)),
        Err(e) => Err(e@),
    }
}

/// `Arc::clone`: another handle to the same account.
#[verifier::external_body]
fn share(account: &Arc<ResolvedAccount>) -> (r: Arc<ResolvedAccount>)
    ensures
        r == *account,
{
    account.clone()
}

/// The next step in resolving a named account, or the default one, without
/// running the commands of one that was resolved before. A failure is never
/// remembered.
pub fn resolve_cached(
    cache: &mut ResolveCache,
    settings: &Settings,
    name: Option<&str>,
    macos: bool,
    outputs: &Vec<CommandOutput>,
) -> (r: Result<Step<Arc<ResolvedAccount>>, String>)
    ensures
        (shared_view(r), final(cache)@) == cached_resolution(
            old(cache)@,
            settings@,
            name_text(name),
            macos,
            output_views(outputs@),
        ),
{
    let key = match settings.key(name) {
        Some(key) => key,
        None => return Err("no account given and no default_account set".to_string()),
    };
    if let Some(found) = cache.entries.get(key.as_str()) {
        return Ok(Step::Done(share(found)));
    }
    let resolved = match settings.resolve(Some(key.as_str()), macos, outputs) {
        Err(e) => return Err(e),
        Ok(Step::Run(command)) => return Ok(Step::Run(command)),
        Ok(Step::Done(account)) => Arc::new(account),
    };
    let ghost key_text = key@;
    cache.entries.insert(key, share(&resolved));
    assert(cache@ =~= old(cache)@.insert(key_text, (*resolved)@));
    Ok(Step::Done(resolved))
}

/// Resolving an account takes at most two commands.
pub proof fn law_at_most_two_commands(
    account: Account,
    name: Seq<char>,
    macos: bool,
    outputs: Seq<Output>,
)
    requires
        outputs.len() >= 2,
    ensures
        !(resolution(account, name, macos, outputs) matches Ok(Progress::Run(_))),
{
}

/// Where nothing is set for SMTP, both servers get the same secret.
pub proof fn law_one_secret_serves_both(
    account: Account,
    name: Seq<char>,
    macos: bool,
    outputs: Seq<Output>,
)
    requires
        account.smtp_pass is None,
        account.smtp_pass_cmd is None,
    ensures
        resolution(account, name, macos, outputs) matches Ok(Progress::Done(resolved))
            ==> resolved.smtp_pass == resolved.imap_pass,
{
}

/// Outbound mail is off unless an account switches it on, and attachments are
/// limited to 25 MiB unless it says otherwise.
pub proof fn law_safe_defaults(
    account: Account,
    imap_user: Seq<char>,
    imap_pass: Seq<char>,
    smtp_pass: Seq<char>,
)
    ensures
        completed(account, imap_user, imap_pass, smtp_pass).smtp_write_enabled
            ==> account.smtp_write_enabled == Some(true),
        account.max_attachment_bytes is None ==> completed(
            account,
            imap_user,
            imap_pass,
            smtp_pass,
        ).max_attachment_bytes == 25 * 1024 * 1024,
{
}

/// Whether the account is read straight from the environment variables or
/// resolved as the single account of their settings, it is the same, and no
/// command is run. The secrets must not be empty: an empty one is resolved
/// otherwise.
pub proof fn law_environment_is_read_alike(env: EnvVars, macos: bool, outputs: Seq<Output>)
    requires
        env.imap_user is Some,
        env.imap_pass matches Some(pass) && pass@.len() > 0,
        env.smtp_pass matches Some(pass) ==> pass@.len() > 0,
    ensures
        env_settings(env) is Ok,
        env_resolved(env) is Ok,
        settings_resolution(env_settings(env)->Ok_0, None, macos, outputs) == Ok::<
            Progress<Resolved>,
            Seq<char>,
        >(Progress::Done(env_resolved(env)->Ok_0)),
{
}

/// An account that was resolved once is given again as it was, whatever the
/// settings and the outputs are by then, and without running a command.
pub proof fn law_cache_remembers(
    cache: Map<Seq<char>, Resolved>,
    setup: Setup,
    name: Option<Seq<char>>,
    macos: bool,
    outputs: Seq<Output>,
    later_setup: Setup,
    later_outputs: Seq<Output>,
)
    requires
        cached_resolution(cache, setup, name, macos, outputs).0 matches Ok(Progress::Done(_)),
    ensures
        ({
            let (r, after) = cached_resolution(cache, setup, name, macos, outputs);
            cached_resolution(after, later_setup, meant(setup, name), macos, later_outputs) == (
                r,
                after,
            )
        }),
{
}

/// No name stands for the name of the default account: both give the same and
/// leave the same cache. Without a default it is an error, whatever the cache
/// holds.
pub proof fn law_no_name_means_the_default(
    cache: Map<Seq<char>, Resolved>,
    setup: Setup,
    macos: bool,
    outputs: Seq<Output>,
)
    ensures
        setup.default_account matches Some(name) ==> cached_resolution(
            cache,
            setup,
            None,
            macos,
            outputs,
        ) == cached_resolution(cache, setup, Some(name), macos, outputs),
        setup.default_account is None ==> cached_resolution(cache, setup, None, macos, outputs)
            == (
            Err::<Progress<Resolved>, Seq<char>>("no account given and no default_account set"@),
            cache,
        ),
{
}

/// A cache changes only by gaining the account that was asked for, once it is
/// resolved: a failure is never remembered, and nothing is ever replaced.
pub proof fn law_cache_only_gains(
    cache: Map<Seq<char>, Resolved>,
    setup: Setup,
    name: Option<Seq<char>>,
    macos: bool,
    outputs: Seq<Output>,
)
    ensures
        ({
            let (r, after) = cached_resolution(cache, setup, name, macos, outputs);
            &&& !(r matches Ok(Progress::Done(_))) ==> after == cache
            &&& forall|key: Seq<char>| #[trigger]
                cache.contains_key(key) ==> after.contains_key(key) && after[key] == cache[key]
            &&& forall|key: Seq<char>| #[trigger]
                after.contains_key(key) && !cache.contains_key(key) ==> meant(setup, name) == Some(
                    key,
                )
        }),
{
}

/// What is set is used, and only what is not set is filled in: the hosts and ports
/// of the usual provider, the login for the SMTP login and for the sender, no
/// outbound mail, 25 MiB, and the folder for sent mail that goes with the IMAP
/// host.
pub proof fn law_what_is_set_is_used(
    account: Account,
    imap_user: Seq<char>,
    imap_pass: Seq<char>,
    smtp_pass: Seq<char>,
)
    ensures
        ({
            let r = completed(account, imap_user, imap_pass, smtp_pass);
            &&& r.imap_user == imap_user
            &&& r.imap_pass == imap_pass
            &&& r.smtp_pass == smtp_pass
            &&& account.imap_host matches Some(host) ==> r.imap_host == host
            &&& account.imap_host is None ==> r.imap_host == "imap.gmail.com"@
            &&& account.imap_port matches Some(port) ==> r.imap_port == port
            &&& account.imap_port is None ==> r.imap_port == 993
            &&& account.smtp_host matches Some(host) ==> r.smtp_host == host
            &&& account.smtp_host is None ==> r.smtp_host == "smtp.gmail.com"@
            &&& account.smtp_port matches Some(port) ==> r.smtp_port == port
            &&& account.smtp_port is None ==> r.smtp_port == 587
            &&& account.smtp_user matches Some(user) ==> r.smtp_user == user
            &&& account.smtp_user is None ==> r.smtp_user == imap_user
            &&& account.smtp_from matches Some(from) ==> r.smtp_from == from
            &&& account.smtp_from is None ==> r.smtp_from == imap_user
            &&& account.smtp_write_enabled matches Some(enabled) ==> r.smtp_write_enabled == enabled
            &&& account.smtp_write_enabled is None ==> !r.smtp_write_enabled
            &&& account.max_attachment_bytes matches Some(limit) ==> r.max_attachment_bytes == limit
            &&& account.max_attachment_bytes is None ==> r.max_attachment_bytes == 26_214_400
            &&& account.sent_folder matches Some(folder) ==> r.sent_folder == folder
            &&& account.sent_folder is None && lowered(r.imap_host) == "imap.one.com"@
                ==> r.sent_folder == "INBOX.Sent"@
            &&& account.sent_folder is None && lowered(r.imap_host) != "imap.one.com"@
                ==> r.sent_folder == "Sent"@
        }),
{
    lemma_lowered_host();
}

/// The provider's host is written small.
proof fn lemma_lowered_host()
    ensures
        lowered("imap.one.com"@) == "imap.one.com"@,
{
    reveal_strlit("imap.one.com");
    assert(lowered("imap.one.com"@) =~= "imap.one.com"@);
}

/// Mail that was sent goes to `INBOX.Sent` at one provider, however its host is
/// written, and to `Sent` at every other.
pub proof fn law_sent_folder_goes_by_the_host(host: Seq<char>)
    ensures
        lowered(host) == "imap.one.com"@ ==> sent_folder_at(host) == "INBOX.Sent"@,
        lowered(host) != "imap.one.com"@ ==> sent_folder_at(host) == "Sent"@,
{
    lemma_lowered_host();
}

/// An account without a login cannot be resolved. One with a login takes its IMAP
/// secret first, and a step to that is the next step.
pub proof fn law_the_imap_secret_comes_first(
    account: Account,
    name: Seq<char>,
    macos: bool,
    outputs: Seq<Output>,
)
    ensures
        account.imap_user is None ==> resolution(account, name, macos, outputs) == Err::<
            Progress<Resolved>,
            Seq<char>,
        >("account '"@ + name + "': imap_user is required"@),
        account.imap_user is Some ==> match secret_step(
            account.imap_pass,
            account.imap_pass_cmd,
            name + "-imap"@,
            macos,
            if outputs.len() > 0 {
                Some(outputs[0])
            } else {
                None
            },
        ) {
            Err(e) => resolution(account, name, macos, outputs) == Err::<
                Progress<Resolved>,
                Seq<char>,
            >(e),
            Ok(Progress::Run(command)) => resolution(account, name, macos, outputs) == Ok::<
                Progress<Resolved>,
                Seq<char>,
            >(Progress::Run(command)),
            Ok(Progress::Done(pass)) => resolution(account, name, macos, outputs) matches Ok(
                Progress::Done(resolved),
            ) ==> resolved.imap_pass == pass,
        },
{
}

/// With the IMAP secret there, the SMTP secret follows: the same one where nothing
/// is set for SMTP, and else its own, from the output behind those that the IMAP
/// secret took; then the account is complete.
pub proof fn law_the_smtp_secret_comes_second(
    account: Account,
    name: Seq<char>,
    macos: bool,
    outputs: Seq<Output>,
    user: Seq<char>,
    pass: Seq<char>,
    used: int,
)
    requires
        account.imap_user == Some(user),
        secret_step(
            account.imap_pass,
            account.imap_pass_cmd,
            name + "-imap"@,
            macos,
            if outputs.len() > 0 {
                Some(outputs[0])
            } else {
                None
            },
        ) == Ok::<Progress<Seq<char>>, Seq<char>>(Progress::Done(pass)),
        used == if account.imap_pass matches Some(inline) && inline.len() > 0 {
            0int
        } else {
            1
        },
    ensures
        account.smtp_pass is None && account.smtp_pass_cmd is None ==> resolution(
            account,
            name,
            macos,
            outputs,
        ) == Ok::<Progress<Resolved>, Seq<char>>(
            Progress::Done(completed(account, user, pass, pass)),
        ),
        account.smtp_pass is Some || account.smtp_pass_cmd is Some ==> match secret_step(
            account.smtp_pass,
            account.smtp_pass_cmd,
            name + "-smtp"@,
            macos,
            if used < outputs.len() {
                Some(outputs[used])
            } else {
                None
            },
        ) {
            Err(e) => resolution(account, name, macos, outputs) == Err::<
                Progress<Resolved>,
                Seq<char>,
            >(e),
            Ok(Progress::Run(command)) => resolution(account, name, macos, outputs) == Ok::<
                Progress<Resolved>,
                Seq<char>,
            >(Progress::Run(command)),
            Ok(Progress::Done(smtp_pass)) => resolution(account, name, macos, outputs) == Ok::<
                Progress<Resolved>,
                Seq<char>,
            >(Progress::Done(completed(account, user, pass, smtp_pass))),
        },
{
}

/// The account that is resolved is the one with the name that was given, or else
/// the default one; a name that no account has is an error, and so is none where
/// there is no default.
pub proof fn law_accounts_are_found_by_name(
    setup: Setup,
    name: Seq<char>,
    macos: bool,
    outputs: Seq<Output>,
)
    ensures
        setup.accounts.contains_key(name) ==> settings_resolution(
            setup,
            Some(name),
            macos,
            outputs,
        ) == resolution(setup.accounts[name], name, macos, outputs),
        !setup.accounts.contains_key(name) ==> settings_resolution(
            setup,
            Some(name),
            macos,
            outputs,
        ) == Err::<Progress<Resolved>, Seq<char>>("unknown account '"@ + name + "'"@),
        setup.default_account == Some(name) ==> settings_resolution(setup, None, macos, outputs)
            == settings_resolution(setup, Some(name), macos, outputs),
        setup.default_account is None ==> settings_resolution(setup, None, macos, outputs) == Err::<
            Progress<Resolved>,
            Seq<char>,
        >("no account given and no default_account set"@),
{
}

/// An account that is not in the cache is resolved by the settings, and goes into
/// the cache once that is done.
pub proof fn law_a_new_account_is_resolved(
    cache: Map<Seq<char>, Resolved>,
    setup: Setup,
    name: Seq<char>,
    macos: bool,
    outputs: Seq<Output>,
)
    ensures
        !cache.contains_key(name) ==> {
            let (r, after) = cached_resolution(cache, setup, Some(name), macos, outputs);
            &&& r == settings_resolution(setup, Some(name), macos, outputs)
            &&& r matches Ok(Progress::Done(account)) ==> after == cache.insert(name, account)
            &&& !(r matches Ok(Progress::Done(_))) ==> after == cache
        },
        cache.contains_key(name) ==> cached_resolution(cache, setup, Some(name), macos, outputs) == (
            Ok::<Progress<Resolved>, Seq<char>>(Progress::Done(cache[name])),
            cache,
        ),
{
}

/// The configuration file is where `MAIL_MCP_CONFIG` says, or else in the
/// directory `mail_mcp` of the configuration directory, which is what
/// `XDG_CONFIG_HOME` says or else `.config` of the home directory; without any of
/// these there is none.
pub proof fn law_where_the_configuration_is(env: EnvVars)
    ensures
        config_location(env) == if env.mail_mcp_config is Some && env.mail_mcp_config->0@.len() > 0 {
            Some(env.mail_mcp_config->0@)
        } else if env.xdg_config_home is Some && env.xdg_config_home->0@.len() > 0 {
            Some(below(below(env.xdg_config_home->0@, "mail_mcp"@), "config.toml"@))
        } else if env.home is Some {
            Some(below(below(below(env.home->0@, ".config"@), "mail_mcp"@), "config.toml"@))
        } else {
            None
        },
{
}

/// A switch is on exactly if it says `1`, `true`, `yes` or `on`, in any case and
/// with any white space around it.
pub proof fn law_switches_are_on_by_word(value: Seq<char>)
    ensures
        ({
            let word = lowered(trimmed(value));
            is_on(value) <==> word == "1"@ || word == "true"@ || word == "yes"@ || word == "on"@
        }),
{
}

/// A variable that holds a number within the range gives it, and any other is as if
/// it were not set.
pub proof fn law_variables_that_are_no_numbers_are_ignored(value: String)
    ensures
        port_in(None) is None,
        size_in(None) is None,
        match unsigned(value@, 65535) {
            Some(n) => port_in(Some(value)) matches Some(port) && port == n,
            None => port_in(Some(value)) is None,
        },
        match unsigned(value@, usize::MAX as nat) {
            Some(n) => size_in(Some(value)) matches Some(size) && size == n,
            None => size_in(Some(value)) is None,
        },
        switch_in(None) is None,
        switch_in(Some(value)) == Some(is_on(value@)),
{
}

/// The environment variables describe one account, called `default`, that is the
/// default, with what each variable says; without a login and a secret they
/// describe none.
pub proof fn law_environment_describes_one_account(env: EnvVars)
    ensures
        env.imap_user is None ==> env_settings(env) == Err::<Setup, Seq<char>>(
            "IMAP_USER not set"@,
        ),
        env.imap_user is Some && env.imap_pass is None ==> env_settings(env) == Err::<
            Setup,
            Seq<char>,
        >("IMAP_PASS not set"@),
        env.imap_user is Some && env.imap_pass is Some ==> (env_settings(env) matches Ok(setup) && {
            &&& setup.default_account == Some("default"@)
            &&& setup.accounts.contains_key("default"@)
            &&& forall|name: Seq<char>| #[trigger]
                setup.accounts.contains_key(name) ==> name == "default"@
            &&& setup.accounts["default"@] == env_account(env)
        }),
        ({
            let account = env_account(env);
            &&& account.imap_host == text_of(env.imap_host)
            &&& account.imap_port == port_in(env.imap_port)
            &&& account.imap_user == text_of(env.imap_user)
            &&& account.imap_pass == text_of(env.imap_pass)
            &&& account.imap_pass_cmd is None
            &&& account.smtp_host == text_of(env.smtp_host)
            &&& account.smtp_port == port_in(env.smtp_port)
            &&& account.smtp_user == text_of(env.smtp_user)
            &&& account.smtp_pass == text_of(env.smtp_pass)
            &&& account.smtp_pass_cmd is None
            &&& account.smtp_from == text_of(env.smtp_from)
            &&& account.smtp_write_enabled == switch_in(env.mail_smtp_write_enabled)
            &&& account.max_attachment_bytes == size_in(env.mail_max_attachment_bytes)
            &&& account.sent_folder == text_of(env.mail_sent_folder)
        }),
{
}

/// Read straight from the environment variables, an account has the login and the
/// secret that they hold, for SMTP its own secret or else the same one, and all
/// else as any account with these settings.
pub proof fn law_environment_is_resolved(env: EnvVars)
    ensures
        env.imap_user is None ==> env_resolved(env) == Err::<Resolved, Seq<char>>(
            "IMAP_USER not set"@,
        ),
        env.imap_user is Some && env.imap_pass is None ==> env_resolved(env) == Err::<
            Resolved,
            Seq<char>,
        >("IMAP_PASS not set"@),
        env.imap_user is Some && env.imap_pass is Some ==> {
            let user = env.imap_user->0@;
            let pass = env.imap_pass->0@;
            &&& env.smtp_pass matches Some(own) ==> env_resolved(env) == Ok::<Resolved, Seq<char>>(
                completed(env_account(env), user, pass, own@),
            )
            &&& env.smtp_pass is None ==> env_resolved(env) == Ok::<Resolved, Seq<char>>(
                completed(env_account(env), user, pass, pass),
            )
        },
{
}

/// An account, resolved or as written down, is known by each of its fields.
pub proof fn law_accounts_are_known_whole(account: ResolvedAccount, config: AccountConfig)
    ensures
        account@.imap_host == account.imap_host@,
        account@.imap_port == account.imap_port,
        account@.imap_user == account.imap_user@,
        account@.imap_pass == account.imap_pass@,
        account@.smtp_host == account.smtp_host@,
        account@.smtp_port == account.smtp_port,
        account@.smtp_user == account.smtp_user@,
        account@.smtp_pass == account.smtp_pass@,
        account@.smtp_from == account.smtp_from@,
        account@.smtp_write_enabled == account.smtp_write_enabled,
        account@.max_attachment_bytes == account.max_attachment_bytes,
        account@.sent_folder == account.sent_folder@,
        config@.imap_host == text_of(config.imap_host),
        config@.imap_port == config.imap_port,
        config@.imap_user == text_of(config.imap_user),
        config@.imap_pass == text_of(config.imap_pass),
        config@.imap_pass_cmd == text_of(config.imap_pass_cmd),
        config@.smtp_host == text_of(config.smtp_host),
        config@.smtp_port == config.smtp_port,
        config@.smtp_user == text_of(config.smtp_user),
        config@.smtp_pass == text_of(config.smtp_pass),
        config@.smtp_pass_cmd == text_of(config.smtp_pass_cmd),
        config@.smtp_from == text_of(config.smtp_from),
        config@.smtp_write_enabled == config.smtp_write_enabled,
        config@.max_attachment_bytes == config.max_attachment_bytes,
        config@.sent_folder == text_of(config.sent_folder),
{
}

/// What is set is used, and the default only where nothing is.
pub proof fn law_defaults_only_fill_in(value: Seq<char>, default: Seq<char>, text: String)
    ensures
        or_default(Some(value), default) == value,
        or_default(None, default) == default,
        text_of(Some(text)) == Some(text@),
        text_of(None) is None,
{
}

/// Steps in resolving an account, and settings that were loaded, are known as they
/// are.
pub proof fn law_resolutions_are_taken_as_they_are(
    text: String,
    account: ResolvedAccount,
    shared: Arc<ResolvedAccount>,
    settings: Settings,
    name: &str,
    outputs: Seq<CommandOutput>,
    i: int,
)
    ensures
        resolution_view(Ok(Step::Run(text))) == Ok::<Progress<Resolved>, Seq<char>>(
            Progress::Run(text@),
        ),
        resolution_view(Ok(Step::Done(account))) == Ok::<Progress<Resolved>, Seq<char>>(
            Progress::Done(account@),
        ),
        resolution_view(Err(text)) == Err::<Progress<Resolved>, Seq<char>>(text@),
        shared_view(Ok(Step::Run(text))) == Ok::<Progress<Resolved>, Seq<char>>(
            Progress::Run(text@),
        ),
        shared_view(Ok(Step::Done(shared))) == Ok::<Progress<Resolved>, Seq<char>>(
            Progress::Done((*shared)@),
        ),
        shared_view(Err(text)) == Err::<Progress<Resolved>, Seq<char>>(text@),
        loaded_view(Ok(Some(settings))) == Ok::<Option<Setup>, Seq<char>>(Some(settings@)),
        loaded_view(Ok(None)) == Ok::<Option<Setup>, Seq<char>>(None),
        loaded_view(Err(text)) == Err::<Option<Setup>, Seq<char>>(text@),
        settings_view(Ok(settings)) == Ok::<Setup, Seq<char>>(settings@),
        settings_view(Err(text)) == Err::<Setup, Seq<char>>(text@),
        name_text(Some(name)) == Some(name@),
        name_text(None) is None,
        output_views(outputs).len() == outputs.len(),
        0 <= i < outputs.len() ==> output_views(outputs)[i] == outputs[i]@,
{
}

/// A configuration file is used as it is; where there is none, or no place for one,
/// the environment variables are; and one that cannot be read, or holds no
/// settings, is an error that names it.
pub proof fn law_settings_come_from_the_file(
    path: Option<&str>,
    file: ConfigFile,
    loaded: Result<Option<Settings>, String>,
    env: &EnvVars,
    r: Result<Settings, String>,
)
    requires
        call_ensures(Settings::load, (path, file), loaded),
        call_ensures(load_settings, (loaded, env), r),
    ensures
        path is None || file is Missing ==> settings_view(r) == env_settings(*env),
        path matches Some(at) ==> match file {
            ConfigFile::Missing => true,
            ConfigFile::Unreadable(e) => r matches Err(f) && f@ == "cannot read "@ + at@ + ": "@
                + e@,
            ConfigFile::Invalid(e) => r matches Err(f) && f@ == "invalid config "@ + at@ + ": "@
                + e@,
            ConfigFile::Holds(settings) => r matches Ok(used) && used@ == settings@,
        },
{
}

/// Resolving an account, by its settings or straight from the environment
/// variables, gives what resolving is.
pub proof fn law_resolving_gives_the_account(
    settings: &Settings,
    name: Option<&str>,
    macos: bool,
    outputs: &Vec<CommandOutput>,
    r: Result<Step<ResolvedAccount>, String>,
    env: &EnvVars,
    direct: Result<ResolvedAccount, String>,
)
    requires
        call_ensures(Settings::resolve, (settings, name, macos, outputs), r),
        call_ensures(ResolvedAccount::from_env, (env,), direct),
    ensures
        resolution_view(r) == settings_resolution(
            settings@,
            name_text(name),
            macos,
            output_views(outputs@),
        ),
        match direct {
            Ok(account) => env_resolved(*env) == Ok::<Resolved, Seq<char>>(account@),
            Err(e) => env_resolved(*env) == Err::<Resolved, Seq<char>>(e@),
        },
{
}

}
