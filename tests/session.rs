use gpt_cli::session::{
    format_log, initial_line, key_step, parse_command, record_turn, request_messages, seed_transcript, Command, KeyAction,
    KeyEvent, Message,
};

fn msg(role: &str, content: &str) -> Message {
    Message { role: role.to_string(), content: content.to_string() }
}

fn pairs(v: &[Message]) -> Vec<(String, String)> {
    v.iter().map(|m| (m.role.clone(), m.content.clone())).collect()
}

#[test]
fn commands() {
    assert_eq!(parse_command(&"".to_string()), Command::Blank);
    assert_eq!(parse_command(&"/clear".to_string()), Command::Clear);
    assert_eq!(parse_command(&"/prompt".to_string()), Command::NewPrompt);
    assert_eq!(parse_command(&"/save".to_string()), Command::Save);
    assert_eq!(parse_command(&"/exit".to_string()), Command::Exit);
    assert_eq!(parse_command(&"/quit".to_string()), Command::Unknown("quit".to_string()));
    assert_eq!(parse_command(&"/".to_string()), Command::Unknown("".to_string()));
    assert_eq!(parse_command(&"/clear ".to_string()), Command::Unknown("clear ".to_string()));
    assert_eq!(parse_command(&"hello /clear".to_string()), Command::Say("hello /clear".to_string()));
}

#[test]
fn command_line_first_message() {
    let a = |v: &[&str]| v.iter().map(|s| s.to_string()).collect::<Vec<String>>();
    assert_eq!(initial_line(&a(&["gpt"])), None);
    assert_eq!(initial_line(&a(&["gpt", "c"])), None);
    assert_eq!(initial_line(&a(&["gpt", "c", "x"])), None);
    assert_eq!(initial_line(&a(&["gpt", "hello"])), Some("hello".to_string()));
    assert_eq!(initial_line(&a(&["gpt", "how", "are", "you"])), Some("how are you".to_string()));
    assert_eq!(initial_line(&a(&["gpt", "cc", ""])), Some("cc ".to_string()));
}

#[test]
fn transcript_turns() {
    let mut h = seed_transcript(&"seed".to_string());
    assert_eq!(pairs(&h), vec![("user".to_string(), "seed".to_string())]);
    let req = request_messages(&h, &"q".to_string());
    assert_eq!(pairs(&req), vec![("user".to_string(), "seed".to_string()), ("user".to_string(), "q".to_string())]);
    assert_eq!(h.len(), 1);
    record_turn(&mut h, &"q".to_string(), &None);
    assert_eq!(h.len(), 1);
    record_turn(&mut h, &"q".to_string(), &Some("a".to_string()));
    assert_eq!(
        pairs(&h),
        vec![
            ("user".to_string(), "seed".to_string()),
            ("user".to_string(), "q".to_string()),
            ("assistant".to_string(), "a".to_string())
        ]
    );
}

#[test]
fn log_format() {
    let v = vec![msg("user", "hi"), msg("assistant", "hello"), msg("system", "s")];
    assert_eq!(format_log(&v), "[User]\nhi\n\n[GPT]\nhello\n\n[system]\ns\n\n");
    assert_eq!(format_log(&vec![]), "");
}

#[test]
fn key_dialog_decisions() {
    assert_eq!(key_step(true, KeyEvent::Entered { empty: true }), KeyAction::PromptAgain);
    assert_eq!(key_step(true, KeyEvent::Entered { empty: false }), KeyAction::Validate);
    assert_eq!(key_step(true, KeyEvent::Checked { accepted: false }), KeyAction::ReportInvalid);
    assert_eq!(key_step(true, KeyEvent::Checked { accepted: true }), KeyAction::AskSave);
    assert_eq!(key_step(false, KeyEvent::Checked { accepted: true }), KeyAction::Finish { stop_notifying: false });
    assert_eq!(key_step(true, KeyEvent::SaveAnswer(true)), KeyAction::Store);
    assert_eq!(key_step(true, KeyEvent::SaveAnswer(false)), KeyAction::AskAgain);
    assert_eq!(key_step(true, KeyEvent::AskAgainAnswer(true)), KeyAction::Finish { stop_notifying: true });
    assert_eq!(key_step(true, KeyEvent::AskAgainAnswer(false)), KeyAction::Finish { stop_notifying: false });
}
