//! The conversation: its transcript, the commands typed at the prompt, the
//! first line taken from the command line, and the log written at the end.
use vstd::prelude::*;
use crate::text::{append_chars, chars_of, same_text, string_of};

verus! {

broadcast use vstd::string::group_string_axioms;

/// One turn of the transcript: who spoke and what was said.
#[derive(Clone, Debug)]
pub struct Message {
    pub role: String,
    pub content: String,
}

impl View for Message {
    type V = (Seq<char>, Seq<char>);

    open spec fn view(&self) -> (Seq<char>, Seq<char>) {
        (self.role@, self.content@)
    }
}

/// The transcript as a sequence of (role, content) pairs.
pub open spec fn messages_model(v: Seq<Message>) -> Seq<(Seq<char>, Seq<char>)> {
    v.map_values(|m: Message| m@)
}

/// A message from the user.
pub fn user_message(content: &String) -> (r: Message)
    ensures
        r@ == ("user"@, content@),
{
    Message { role: "user".to_string(), content: content.clone() }
}

/// A message from the assistant.
pub fn assistant_message(content: &String) -> (r: Message)
    ensures
        r@ == ("assistant"@, content@),
{
    Message { role: "assistant".to_string(), content: content.clone() }
}

/// A fresh transcript: the seed prompt, as the user's first message.
pub fn seed_transcript(prompt: &String) -> (r: Vec<Message>)
    ensures
        messages_model(r@) == seq![("user"@, prompt@)],
{
    let mut v: Vec<Message> = Vec::new();
    v.push(user_message(prompt));
    assert(messages_model(v@) =~= seq![("user"@, prompt@)]);
    v
}

/// The messages sent for a turn: the transcript so far and the new user message.
pub fn request_messages(history: &Vec<Message>, prompt: &String) -> (r: Vec<Message>)
    ensures
        messages_model(r@) == messages_model(history@).push(("user"@, prompt@)),
{
    let mut v: Vec<Message> = Vec::new();
    let mut i: usize = 0;
    while i < history.len()
        invariant
            i <= history@.len(),
            messages_model(v@) == messages_model(history@.subrange(0, i as int)),
        decreases history.len() - i,
    {
        let m = &history[i];
        let nm = Message { role: m.role.clone(), content: m.content.clone() };
        assert(nm@ == history@[i as int]@);
        let ghost before = v@;
        v.push(nm);
        assert(messages_model(v@) =~= messages_model(before).push(nm@));
        assert(messages_model(history@.subrange(0, i + 1)) =~= messages_model(history@.subrange(0, i as int)).push(history@[i as int]@));
        i = i + 1;
    }
    assert(history@.subrange(0, i as int) =~= history@);
    v.push(user_message(prompt));
    assert(messages_model(v@) =~= messages_model(history@).push(("user"@, prompt@)));
    v
}

/// Records the outcome of a turn: with a reply, the user's message and the
/// reply are appended; without one (the request failed), the transcript stays
/// as it was.
pub fn record_turn(history: &mut Vec<Message>, prompt: &String, reply: &Option<String>)
    ensures
        match reply {
            Some(text) => messages_model(final(history)@) == messages_model(old(history)@).push(
                ("user"@, prompt@),
            ).push(("assistant"@, text@)),
            None => final(history)@ == old(history)@,
        },
{
    match reply {
        Some(text) => {
            let ghost before = messages_model(history@);
            history.push(user_message(prompt));
            history.push(assistant_message(text));
            assert(messages_model(history@) =~= before.push(("user"@, prompt@)).push(
                ("assistant"@, text@),
            ));
        },
        None => {},
    }
}

/// A line typed at the prompt.
#[derive(Clone, Debug, PartialEq, Eq)]
pub enum Command {
    /// An empty line: nothing to do.
    Blank,
    /// `/clear`: start the transcript again from the seed prompt.
    Clear,
    /// `/prompt`: ask for a new seed prompt and start again from it.
    NewPrompt,
    /// `/save`: offer to save the configuration.
    Save,
    /// `/exit`: leave.
    Exit,
    /// Another word after a slash: not a command; the word without the slash.
    Unknown(String),
    /// Anything else: a message for the assistant.
    Say(String),
}

/// `line` starts with a slash.
pub open spec fn is_slash(line: Seq<char>) -> bool {
    line.len() > 0 && line[0] == '/'
}

/// Reads a line typed at the prompt.
pub fn parse_command(line: &String) -> (r: Command)
    ensures
        match r {
            Command::Blank => line@.len() == 0,
            Command::Clear => line@ == "/clear"@,
            Command::NewPrompt => line@ == "/prompt"@,
            Command::Save => line@ == "/save"@,
            Command::Exit => line@ == "/exit"@,
            Command::Unknown(word) => is_slash(line@) && line@ != "/clear"@ && line@ != "/prompt"@
                && line@ != "/save"@ && line@ != "/exit"@ && word@ == line@.drop_first(),
            Command::Say(text) => line@.len() > 0 && !is_slash(line@) && text@ == line@,
        },
{
    let t = chars_of(line.as_str());
    if t.len() == 0 {
        Command::Blank
    } else if t[0] != '/' {
        Command::Say(line.clone())
    } else if same_text(&t, "/clear") {
        Command::Clear
    } else if same_text(&t, "/prompt") {
        Command::NewPrompt
    } else if same_text(&t, "/save") {
        Command::Save
    } else if same_text(&t, "/exit") {
        Command::Exit
    } else {
        let mut word: Vec<char> = Vec::new();
        let mut i: usize = 1;
        while i < t.len()
            invariant
                1 <= i <= t@.len(),
                word@ == t@.subrange(1, i as int),
            decreases t.len() - i,
        {
            word.push(t[i]);
            assert(word@ =~= t@.subrange(1, i + 1));
            i = i + 1;
        }
        assert(word@ =~= t@.drop_first());
        Command::Unknown(string_of(&word))
    }
}

/// The words given on the command line after the program's name, joined by
/// spaces, unless the first of them is `c`.
pub open spec fn joined(words: Seq<Seq<char>>) -> Seq<char>
    decreases words.len(),
{
    if words.len() == 0 {
        Seq::empty()
    } else if words.len() == 1 {
        words[0]
    } else {
        joined(words.drop_last()) + seq![' '] + words.last()
    }
}

/// The strings as character sequences.
pub open spec fn args_model(v: Seq<String>) -> Seq<Seq<char>> {
    v.map_values(|s: String| s@)
}

/// The first message, taken from the command line: the arguments after the
/// program's name, joined by spaces; none when there are none or the first is `c`.
pub fn initial_line(args: &Vec<String>) -> (r: Option<String>)
    ensures
        match r {
            Some(line) => args@.len() > 1 && args@[1]@ != "c"@ && line@ == joined(
                args_model(args@).drop_first(),
            ),
            None => args@.len() <= 1 || args@[1]@ == "c"@,
        },
{
    if args.len() <= 1 {
        return None;
    }
    let first = chars_of(args[1].as_str());
    if same_text(&first, "c") {
        return None;
    }
    let ghost words = args_model(args@).drop_first();
    let mut out: Vec<char> = first;
    let mut i: usize = 2;
    assert(words.subrange(0, 1) =~= seq![args@[1]@]);
    while i < args.len()
        invariant
            2 <= i <= args@.len(),
            words == args_model(args@).drop_first(),
            out@ == joined(words.subrange(0, i - 1)),
        decreases args.len() - i,
    {
        out.push(' ');
        let w = chars_of(args[i].as_str());
        append_chars(&mut out, &w);
        assert(words.subrange(0, i as int).drop_last() =~= words.subrange(0, i - 1));
        assert(out@ =~= joined(words.subrange(0, i as int)));
        i = i + 1;
    }
    assert(words.subrange(0, i - 1) =~= words);
    Some(string_of(&out))
}

/// The heading of a message in the log: "User" for the user, "GPT" for the
/// assistant, the role itself otherwise.
pub open spec fn role_label(role: Seq<char>) -> Seq<char> {
    if role == "user"@ {
        "User"@
    } else if role == "assistant"@ {
        "GPT"@
    } else {
        role
    }
}

/// One message in the log: its heading in brackets, a line break, the content,
/// and a blank line.
pub open spec fn log_entry(m: (Seq<char>, Seq<char>)) -> Seq<char> {
    seq!['['] + role_label(m.0) + seq![']', '\n'] + m.1 + seq!['\n', '\n']
}

/// The log of a transcript: its entries, one after another.
pub open spec fn log_text(ms: Seq<(Seq<char>, Seq<char>)>) -> Seq<char>
    decreases ms.len(),
{
    if ms.len() == 0 {
        Seq::empty()
    } else {
        log_text(ms.drop_last()) + log_entry(ms.last())
    }
}

fn push_chars(out: &mut Vec<char>, s: &str)
    ensures
        final(out)@ == old(out)@ + s@,
{
    let c = chars_of(s);
    append_chars(out, &c);
}

/// Formats the transcript as the readable log written when the session ends.
pub fn format_log(messages: &Vec<Message>) -> (r: String)
    ensures
        r@ == log_text(messages_model(messages@)),
{
    let ghost ms = messages_model(messages@);
    let mut out: Vec<char> = Vec::new();
    let mut i: usize = 0;
    while i < messages.len()
        invariant
            i <= messages@.len(),
            ms == messages_model(messages@),
            out@ == log_text(ms.subrange(0, i as int)),
        decreases messages.len() - i,
    {
        let m = &messages[i];
        let role = chars_of(m.role.as_str());
        let ghost start = out@;
        out.push('[');
        if same_text(&role, "user") {
            push_chars(&mut out, "User");
        } else if same_text(&role, "assistant") {
            push_chars(&mut out, "GPT");
        } else {
            append_chars(&mut out, &role);
        }
        out.push(']');
        out.push('\n');
        push_chars(&mut out, m.content.as_str());
        out.push('\n');
        out.push('\n');
        assert(out@ =~= start + log_entry(ms[i as int]));
        assert(ms.subrange(0, i + 1).drop_last() =~= ms.subrange(0, i as int));
        i = i + 1;
    }
    assert(ms.subrange(0, i as int) =~= ms);
    string_of(&out)
}

/// What happened while asking for the API key.
#[derive(Clone, Copy, Debug, PartialEq, Eq, Structural)]
pub enum KeyEvent {
    /// A key was typed; `empty` tells whether nothing was.
    Entered { empty: bool },
    /// The service answered the key check; `accepted` on a success status.
    Checked { accepted: bool },
    /// The answer to "save the key?".
    SaveAnswer(bool),
    /// The answer to "ask again next time?".
    AskAgainAnswer(bool),
}

/// What to do next while asking for the API key.
#[derive(Clone, Copy, Debug, PartialEq, Eq, Structural)]
pub enum KeyAction {
    /// Ask for the key again.
    PromptAgain,
    /// Check the key with the service.
    Validate,
    /// Say the key was refused, forget it, and ask again.
    ReportInvalid,
    /// Ask whether to save the key.
    AskSave,
    /// Ask whether to ask again next time.
    AskAgain,
    /// Save the key and go on.
    Store,
    /// Go on with the key; `stop_notifying` turns the save question off.
    Finish { stop_notifying: bool },
}

/// The key dialog's next action, given whether saving is offered.
pub open spec fn key_next(notify_save: bool, e: KeyEvent) -> KeyAction {
    match e {
        KeyEvent::Entered { empty } => if empty { KeyAction::PromptAgain } else { KeyAction::Validate },
        KeyEvent::Checked { accepted } => if !accepted {
            KeyAction::ReportInvalid
        } else if notify_save {
            KeyAction::AskSave
        } else {
            KeyAction::Finish { stop_notifying: false }
        },
        KeyEvent::SaveAnswer(yes) => if yes { KeyAction::Store } else { KeyAction::AskAgain },
        KeyEvent::AskAgainAnswer(yes) => KeyAction::Finish { stop_notifying: yes },
    }
}

/// Decides the key dialog's next action.
pub fn key_step(notify_save: bool, e: KeyEvent) -> (r: KeyAction)
    ensures
        r == key_next(notify_save, e),
{
    match e {
        KeyEvent::Entered { empty } => if empty { KeyAction::PromptAgain } else { KeyAction::Validate },
        KeyEvent::Checked { accepted } => if !accepted {
            KeyAction::ReportInvalid
        } else if notify_save {
            KeyAction::AskSave
        } else {
            KeyAction::Finish { stop_notifying: false }
        },
        KeyEvent::SaveAnswer(yes) => if yes { KeyAction::Store } else { KeyAction::AskAgain },
        KeyEvent::AskAgainAnswer(yes) => KeyAction::Finish { stop_notifying: yes },
    }
}

} // verus!
