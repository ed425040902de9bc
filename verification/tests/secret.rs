use mail_mcp::secret::{keychain_cmd, resolve_secret, secret_from_output, CommandOutput, Step};

fn printed(stdout: &[u8]) -> CommandOutput {
    CommandOutput::Exited { success: true, status: "exit status: 0".to_string(), stdout: stdout.to_vec(), stderr: vec![] }
}

fn failed(stderr: &[u8]) -> CommandOutput {
    CommandOutput::Exited { success: false, status: "exit status: 44".to_string(), stdout: b"x".to_vec(), stderr: stderr.to_vec() }
}

fn text(s: &str) -> Option<String> {
    Some(s.to_string())
}

fn value(r: Result<Step<String>, String>) -> String {
    match r {
        Ok(Step::Done(v)) => v,
        other => panic!("{other:?}"),
    }
}

fn command(r: Result<Step<String>, String>) -> String {
    match r {
        Ok(Step::Run(c)) => c,
        other => panic!("{other:?}"),
    }
}

const NONE: &str = "no secret available (set *_pass, *_pass_cmd, or a Keychain entry)";

#[test]
fn output_is_decoded_without_its_line_end() {
    assert_eq!(secret_from_output(&printed(b"hunter2\n")), Ok("hunter2".to_string()));
    assert_eq!(secret_from_output(&printed(b"hunter2")), Ok("hunter2".to_string()));
    assert_eq!(secret_from_output(&printed("p\u{e4}ss\r\n".as_bytes())), Ok("p\u{e4}ss".to_string()));
    assert_eq!(secret_from_output(&printed(b"a\xffb\n")), Ok("a\u{fffd}b".to_string()));
}

#[test]
fn white_space_of_a_secret_is_kept() {
    assert_eq!(secret_from_output(&printed(b" hunter2\n")), Ok(" hunter2".to_string()));
    assert_eq!(secret_from_output(&printed(b" pw \n")), Ok(" pw ".to_string()));
    assert_eq!(secret_from_output(&printed(b"a\nb\t\r\n\n")), Ok("a\nb\t".to_string()));
    assert_eq!(secret_from_output(&printed(b"\r\n")), Ok(String::new()));
}

#[test]
fn a_failed_command_is_reported() {
    assert_eq!(secret_from_output(&failed(b"not found\n")), Err("secret command exited exit status: 44: not found".to_string()));
    assert_eq!(
        secret_from_output(&CommandOutput::NotStarted("no sh".to_string())),
        Err("secret command failed to start: no sh".to_string())
    );
}

#[test]
fn an_inline_secret_wins() {
    assert_eq!(value(resolve_secret(&text("s"), &text("cmd"), "a-imap", true, None)), "s");
}

#[test]
fn a_command_is_run_where_no_secret_is_given() {
    assert_eq!(command(resolve_secret(&text(""), &text("cmd"), "a-imap", false, None)), "cmd");
    assert_eq!(value(resolve_secret(&None, &text("cmd"), "a-imap", false, Some(&printed(b"s\n")))), "s");
    assert_eq!(value(resolve_secret(&None, &text("cmd"), "a-imap", false, Some(&printed(b"\n")))), "");
    assert!(resolve_secret(&None, &text("cmd"), "a-imap", true, Some(&failed(b"e"))).err().unwrap().starts_with("secret command exited"));
}

#[test]
fn the_keychain_is_asked_on_macos_only() {
    let lookup = "security find-generic-password -s mail_mcp -a a-imap -w";
    assert_eq!(keychain_cmd("a-imap"), lookup);
    assert_eq!(command(resolve_secret(&None, &None, "a-imap", true, None)), lookup);
    assert_eq!(value(resolve_secret(&None, &None, "a-imap", true, Some(&printed(b"k\n")))), "k");
    assert_eq!(resolve_secret(&None, &None, "a-imap", false, None).err().unwrap(), NONE);
    assert_eq!(resolve_secret(&None, &None, "a-imap", true, Some(&printed(b"\n"))).err().unwrap(), NONE);
    assert_eq!(resolve_secret(&None, &None, "a-imap", true, Some(&failed(b"e"))).err().unwrap(), NONE);
}
