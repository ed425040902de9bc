//! Secrets: an inline value, the output of a shell command, or a Keychain entry
//! looked up by convention.
use vstd::prelude::*;
use vstd::utf8::{decode_utf8, valid_utf8};

use crate::mime::text_of;
use crate::text;
use crate::text::trimmed;

verus! {

/// What came of running a command.
#[derive(Debug)]
pub enum CommandOutput {
    /// It could not be started, for this reason.
    NotStarted(String),
    /// It ran and ended.
    Exited { success: bool, status: String, stdout: Vec<u8>, stderr: Vec<u8> },
}

/// A `CommandOutput` as texts and bytes.
pub enum Output {
    NotStarted(Seq<char>),
    Exited { success: bool, status: Seq<char>, stdout: Seq<u8>, stderr: Seq<u8> },
}

impl View for CommandOutput {
    type V = Output;

    open spec fn view(&self) -> Output {
        match *self {
            CommandOutput::NotStarted(e) => Output::NotStarted(e@),
            CommandOutput::Exited { success, status, stdout, stderr } => Output::Exited {
                success,
                status: status@,
                stdout: stdout@,
                stderr: stderr@,
            },
        }
    }
}

/// What to do next: run a command, or nothing more.
#[derive(Debug)]
pub enum Step<T> {
    Run(String),
    Done(T),
}

/// A `Step` as a text and a value.
pub enum Progress<T> {
    Run(Seq<char>),
    Done(T),
}

/// The text that `bytes`, which are not valid UTF-8, are shown as, with
/// replacement characters.
pub uninterp spec fn patched_text(bytes: Seq<u8>) -> Seq<char>;

/// The text that `bytes` are shown as.
pub open spec fn shown_text(bytes: Seq<u8>) -> Seq<char> {
    if valid_utf8(bytes) {
        decode_utf8(bytes)
    } else {
        patched_text(bytes)
    }
}

/// `String::from_utf8_lossy`: valid UTF-8 is decoded. Other bytes give a text
/// that depends on them alone; which replacement characters it holds is not
/// said.
#[verifier::external_body]
fn decode_lossy(bytes: &[u8]) -> (r: String)
    ensures
        valid_utf8(bytes@) ==> r@ == decode_utf8(bytes@),
        !valid_utf8(bytes@) ==> r@ == patched_text(bytes@),
{
    String::from_utf8_lossy(bytes).into_owned()
}

/// Whether `c` ends a line.
pub open spec fn is_line_end(c: char) -> bool {
    c == '\n' || c == '\r'
}

/// `s` without the line breaks at its end.
pub open spec fn without_line_end(s: Seq<char>) -> Seq<char>
    decreases s.len(),
{
    if s.len() > 0 && is_line_end(s.last()) {
        without_line_end(s.drop_last())
    } else {
        s
    }
}

/// `text` without the line breaks at its end.
fn drop_line_end(text: &str) -> (r: String)
    ensures
        r@ == without_line_end(text@),
{
    let chars = text::chars_of(text);
    let mut to: usize = chars.len();
    assert(chars@.subrange(0, to as int) =~= text@);
    while to > 0 && (chars[to - 1] == '\n' || chars[to - 1] == '\r')
        invariant
            to <= chars@.len(),
            without_line_end(text@) == without_line_end(chars@.subrange(0, to as int)),
        decreases to,
    {
        assert(chars@.subrange(0, to as int).drop_last() =~= chars@.subrange(0, to - 1));
        to -= 1;
    }
    text::string_of(chars.as_slice(), 0, to)
}

/// The secret that a command printed, or why there is none.
pub open spec fn printed(output: Output) -> Result<Seq<char>, Seq<char>> {
    match output {
        Output::NotStarted(e) => Err("secret command failed to start: "@ + e),
        Output::Exited { success, status, stdout, stderr } => if success {
            Ok(without_line_end(shown_text(stdout)))
        } else {
            Err("secret command exited "@ + status + ": "@ + trimmed(shown_text(stderr)))
        },
    }
}

/// A text, or the text of an error.
pub open spec fn result_text(r: Result<String, String>) -> Result<Seq<char>, Seq<char>> {
    match r {
        Ok(t) => Ok(t@),
        Err(e) => Err(e@),
    }
}

/// The secret that a command printed, without the line breaks that commands
/// commonly append.
pub fn secret_from_output(output: &CommandOutput) -> (r: Result<String, String>)
    ensures
        result_text(r) == printed(output@),
{
    match output {
        CommandOutput::NotStarted(e) => Err(
            "secret command failed to start: ".to_string().concat(e.as_str()),
        ),
        CommandOutput::Exited { success, status, stdout, stderr } => if *success {
            Ok(drop_line_end(decode_lossy(stdout.as_slice()).as_str()))
        } else {
            let reason = text::trim(decode_lossy(stderr.as_slice()).as_str());
            Err(
                "secret command exited ".to_string().concat(status.as_str()).concat(": ").concat(
                    reason.as_str(),
                ),
            )
        },
    }
}

/// The command that prints a Keychain entry.
pub open spec fn keychain_command(account: Seq<char>) -> Seq<char> {
    "security find-generic-password -s mail_mcp -a "@ + account + " -w"@
}

/// The command that prints a Keychain entry.
pub fn keychain_cmd(account: &str) -> (r: String)
    ensures
        r@ == keychain_command(account@),
{
    "security find-generic-password -s mail_mcp -a ".to_string().concat(account).concat(" -w")
}

/// Whether an inline secret is given.
pub open spec fn is_given(inline: Option<Seq<char>>) -> bool {
    inline matches Some(value) && value.len() > 0
}

/// The note that no secret can be had.
pub open spec fn no_secret() -> Seq<char> {
    "no secret available (set *_pass, *_pass_cmd, or a Keychain entry)"@
}

/// The command that a secret takes, if it takes one: none where it is given
/// inline, else the one that is set, else on macOS the Keychain lookup.
pub open spec fn needed_command(
    inline: Option<Seq<char>>,
    cmd: Option<Seq<char>>,
    keychain_account: Seq<char>,
    macos: bool,
) -> Option<Seq<char>> {
    if is_given(inline) {
        None
    } else if cmd is Some {
        cmd
    } else if macos {
        Some(keychain_command(keychain_account))
    } else {
        None
    }
}

/// The next step to a secret: the command that it takes, until that has run,
/// and then the secret. A Keychain lookup that fails or finds nothing leaves
/// none; the failure of a command that is set is the error.
pub open spec fn secret_step(
    inline: Option<Seq<char>>,
    cmd: Option<Seq<char>>,
    keychain_account: Seq<char>,
    macos: bool,
    output: Option<Output>,
) -> Result<Progress<Seq<char>>, Seq<char>> {
    if is_given(inline) {
        Ok(Progress::Done(inline->0))
    } else {
        match needed_command(inline, cmd, keychain_account, macos) {
            None => Err(no_secret()),
            Some(command) => match output {
                None => Ok(Progress::Run(command)),
                Some(output) => match printed(output) {
                    Ok(value) => if cmd is Some || value.len() > 0 {
                        Ok(Progress::Done(value))
                    } else {
                        Err(no_secret())
                    },
                    Err(e) => if cmd is Some {
                        Err(e)
                    } else {
                        Err(no_secret())
                    },
                },
            },
        }
    }
}

/// A step to a secret, by its texts.
pub open spec fn secret_view(r: Result<Step<String>, String>) -> Result<
    Progress<Seq<char>>,
    Seq<char>,
> {
    match r {
        Ok(Step::Run(command)) => Ok(Progress::Run(command@)),
        Ok(Step::Done(secret)) => Ok(Progress::Done(secret@)),
        Err(e) => Err(e@),
    }
}

/// The output of a command that has run, if it has.
pub open spec fn output_view(output: Option<&CommandOutput>) -> Option<Output> {
    match output {
        Some(o) => Some(o@),
        None => None,
    }
}

/// The next step to a secret.
pub fn resolve_secret(
    inline: &Option<String>,
    cmd: &Option<String>,
    keychain_account: &str,
    macos: bool,
    output: Option<&CommandOutput>,
) -> (r: Result<Step<String>, String>)
    ensures
        secret_view(r) == secret_step(
            text_of(*inline),
            text_of(*cmd),
            keychain_account@,
            macos,
            output_view(output),
        ),
{
    if let Some(value) = inline {
        if !value.as_str().is_empty() {
            return Ok(Step::Done(value.clone()));
        }
    }
    if let Some(command) = cmd {
        return match output {
            None => Ok(Step::Run(command.clone())),
            Some(output) => match secret_from_output(output) {
                Ok(secret) => Ok(Step::Done(secret)),
                Err(e) => Err(e),
            },
        };
    }
    if macos {
        match output {
            None => return Ok(Step::Run(keychain_cmd(keychain_account))),
            Some(output) => {
                if let Ok(secret) = secret_from_output(output) {
                    if !secret.as_str().is_empty() {
                        return Ok(Step::Done(secret));
                    }
                }
            },
        }
    }
    Err("no secret available (set *_pass, *_pass_cmd, or a Keychain entry)".to_string())
}

/// A secret that is given inline is used as it is, and nothing is run for it.
pub proof fn law_inline_secret_runs_nothing(
    inline: Seq<char>,
    cmd: Option<Seq<char>>,
    keychain_account: Seq<char>,
    macos: bool,
    output: Option<Output>,
)
    requires
        inline.len() > 0,
    ensures
        secret_step(Some(inline), cmd, keychain_account, macos, output) == Ok::<
            Progress<Seq<char>>,
            Seq<char>,
        >(Progress::Done(inline)),
{
}

/// A secret is what a command printed, but for line breaks at its end: it is a
/// prefix of that, does not end in a line break, and only line breaks follow it.
/// White space that belongs to it is kept.
pub proof fn law_printed_secret_loses_only_line_ends(
    status: Seq<char>,
    stdout: Seq<u8>,
    stderr: Seq<u8>,
)
    ensures
        ({
            let text = shown_text(stdout);
            let output = Output::Exited { success: true, status, stdout, stderr };
            printed(output) matches Ok(secret) && secret.is_prefix_of(text) && (secret.len() > 0
                ==> !is_line_end(secret.last())) && forall|i: int|
                secret.len() <= i < text.len() ==> is_line_end(#[trigger] text[i])
        }),
{
    lemma_without_line_end(shown_text(stdout));
}

/// Without the line breaks at its end, a text is a prefix of itself.
proof fn lemma_without_line_end(s: Seq<char>)
    ensures
        without_line_end(s).is_prefix_of(s),
        without_line_end(s).len() > 0 ==> !is_line_end(without_line_end(s).last()),
        forall|i: int| without_line_end(s).len() <= i < s.len() ==> is_line_end(#[trigger] s[i]),
    decreases s.len(),
{
    if s.len() > 0 && is_line_end(s.last()) {
        let t = s.drop_last();
        let w = without_line_end(s);
        lemma_without_line_end(t);
        assert(w =~= s.subrange(0, w.len() as int));
        assert forall|i: int| w.len() <= i < s.len() implies is_line_end(#[trigger] s[i]) by {
            if i < t.len() {
                assert(t[i] == s[i]);
            }
        }
    } else {
        assert(s =~= s.subrange(0, s.len() as int));
    }
}

/// A line ends with a line feed or a carriage return.
pub proof fn law_line_ends(c: char)
    ensures
        is_line_end(c) <==> c as u32 == 10 || c as u32 == 13,
{
}

/// The bytes of a text in UTF-8 are shown as that text.
pub proof fn law_bytes_are_shown_as_their_text(bytes: Seq<u8>)
    ensures
        valid_utf8(bytes) ==> shown_text(bytes) == decode_utf8(bytes),
        !valid_utf8(bytes) ==> shown_text(bytes) == patched_text(bytes),
{
}

/// What came of a command is known as it is.
pub proof fn law_outputs_are_taken_whole(output: CommandOutput)
    ensures
        match output {
            CommandOutput::NotStarted(e) => output@ == Output::NotStarted(e@),
            CommandOutput::Exited { success, status, stdout, stderr } => output@
                == (Output::Exited {
                success,
                status: status@,
                stdout: stdout@,
                stderr: stderr@,
            }),
        },
{
}

/// A command that could not be started, or that failed, gives no secret: the error
/// is why it could not be started, or how it ended and what it said.
pub proof fn law_failed_commands_print_no_secret(
    e: Seq<char>,
    status: Seq<char>,
    stdout: Seq<u8>,
    stderr: Seq<u8>,
)
    ensures
        printed(Output::NotStarted(e)) == Err::<Seq<char>, Seq<char>>(
            "secret command failed to start: "@ + e,
        ),
        printed(Output::Exited { success: false, status, stdout, stderr }) == Err::<
            Seq<char>,
            Seq<char>,
        >("secret command exited "@ + status + ": "@ + trimmed(shown_text(stderr))),
{
}

/// Where no secret is given inline, the command that is set is run, as it is, and
/// what it prints is the secret; where it fails, that is the error.
pub proof fn law_the_command_that_is_set_decides(
    inline: Option<Seq<char>>,
    cmd: Seq<char>,
    keychain_account: Seq<char>,
    macos: bool,
    output: Output,
)
    requires
        inline matches Some(value) ==> value.len() == 0,
    ensures
        secret_step(inline, Some(cmd), keychain_account, macos, None) == Ok::<
            Progress<Seq<char>>,
            Seq<char>,
        >(Progress::Run(cmd)),
        match printed(output) {
            Ok(value) => secret_step(inline, Some(cmd), keychain_account, macos, Some(output))
                == Ok::<Progress<Seq<char>>, Seq<char>>(Progress::Done(value)),
            Err(e) => secret_step(inline, Some(cmd), keychain_account, macos, Some(output)) == Err::<
                Progress<Seq<char>>,
                Seq<char>,
            >(e),
        },
{
}

/// Where neither a secret nor a command is set, the Keychain is asked on macOS for
/// the account's entry, and what it prints is the secret, unless that is nothing;
/// in every other case there is no secret, and the error says what can be set.
pub proof fn law_the_keychain_is_asked_last(
    inline: Option<Seq<char>>,
    keychain_account: Seq<char>,
    output: Output,
    any: Option<Output>,
)
    requires
        inline matches Some(value) ==> value.len() == 0,
    ensures
        secret_step(inline, None, keychain_account, true, None) == Ok::<
            Progress<Seq<char>>,
            Seq<char>,
        >(
            Progress::Run(
                "security find-generic-password -s mail_mcp -a "@ + keychain_account + " -w"@,
            ),
        ),
        secret_step(inline, None, keychain_account, true, Some(output)) == match printed(output) {
            Ok(value) => if value.len() > 0 {
                Ok::<Progress<Seq<char>>, Seq<char>>(Progress::Done(value))
            } else {
                Err("no secret available (set *_pass, *_pass_cmd, or a Keychain entry)"@)
            },
            Err(_) => Err("no secret available (set *_pass, *_pass_cmd, or a Keychain entry)"@),
        },
        secret_step(inline, None, keychain_account, false, any) == Err::<
            Progress<Seq<char>>,
            Seq<char>,
        >("no secret available (set *_pass, *_pass_cmd, or a Keychain entry)"@),
{
}

/// A Keychain entry is printed by its name.
pub proof fn law_keychain_command_names_the_entry(account: Seq<char>)
    ensures
        keychain_command(account) == "security find-generic-password -s mail_mcp -a "@ + account
            + " -w"@,
{
}

/// Steps, outputs and results are known as they are.
pub proof fn law_steps_are_taken_as_they_are(
    text: String,
    output: CommandOutput,
)
    ensures
        result_text(Ok(text)) == Ok::<Seq<char>, Seq<char>>(text@),
        result_text(Err(text)) == Err::<Seq<char>, Seq<char>>(text@),
        secret_view(Ok(Step::Run(text))) == Ok::<Progress<Seq<char>>, Seq<char>>(
            Progress::Run(text@),
        ),
        secret_view(Ok(Step::Done(text))) == Ok::<Progress<Seq<char>>, Seq<char>>(
            Progress::Done(text@),
        ),
        secret_view(Err(text)) == Err::<Progress<Seq<char>>, Seq<char>>(text@),
        output_view(None) is None,
        output_view(Some(&output)) == Some(output@),
{
}

}
