use async_chat_server::client::username_line;
use async_chat_server::server::{
    chat_message, is_login_phase, join_message, leave_message, menu_choice, parse_username_line, Action, Event,
    MenuChoice, PasswordVerdict, Phase, Session,
};

fn s(t: &str) -> String {
    t.to_string()
}

#[test]
fn parses_a_username_line() {
    assert_eq!(parse_username_line("Username  bob \n"), Some(s("bob")));
    assert_eq!(parse_username_line("Username \n"), Some(s("")));
    assert_eq!(parse_username_line("Name bob\n"), None);
    assert_eq!(parse_username_line(""), None);
}

#[test]
fn server_reads_back_the_clients_username_line() {
    for name in ["alice", "  bob\t", "", "日本"].iter() {
        let line = username_line(name);
        assert_eq!(parse_username_line(&line), Some(name.trim().to_string()));
    }
}

#[test]
fn notices() {
    assert_eq!(join_message("ann"), "ann has joined the chat!\n");
    assert_eq!(leave_message("ann"), "User ann has left the chat.\n");
    assert_eq!(chat_message("ann", "  hi there \n"), "ann: hi there\n");
}

#[test]
fn menu_choices() {
    assert_eq!(menu_choice("0\n"), MenuChoice::Exit);
    assert_eq!(menu_choice(" 1 "), MenuChoice::StartServer);
    assert_eq!(menu_choice("2\n"), MenuChoice::SetPassword);
    assert_eq!(menu_choice("3\n"), MenuChoice::Invalid);
    assert_eq!(menu_choice("10"), MenuChoice::Invalid);
    assert_eq!(menu_choice(""), MenuChoice::Invalid);
}

#[test]
fn full_login_and_chat() {
    let mut session = Session::new();
    assert_eq!(session.phase(), Phase::AwaitingUsername);
    let a = session.step(Event::LineRead(s("Username bob\n")));
    assert_eq!(a, vec![Action::Reply(s("Password for this server:\n"))]);
    assert_eq!(session.phase(), Phase::AwaitingPassword);
    assert_eq!(session.username(), "bob");

    let a = session.step(Event::LineRead(s("hunter2\n")));
    assert_eq!(a, vec![Action::CheckPassword(s("hunter2"))]);
    assert_eq!(session.phase(), Phase::CheckingPassword);

    let a = session.step(Event::Verdict(PasswordVerdict::Accepted));
    assert_eq!(
        a,
        vec![
            Action::Reply(s("Password accepted. Please enter your username:\n")),
            Action::Register(s("bob")),
            Action::Broadcast(s("bob has joined the chat!\n")),
        ]
    );
    assert_eq!(session.phase(), Phase::Chatting);

    // the password is not repeated in the first chat line
    let a = session.step(Event::LineRead(s("hello\n")));
    assert_eq!(a, vec![Action::Broadcast(s("bob: hello\n"))]);
    let a = session.step(Event::LineRead(s("again\n")));
    assert_eq!(a, vec![Action::Broadcast(s("bob: again\n"))]);

    let a = session.step(Event::Incoming(s("amy: hi\n")));
    assert_eq!(a, vec![Action::Reply(s("amy: hi\n"))]);

    let a = session.step(Event::EndOfInput);
    assert_eq!(a, vec![Action::Broadcast(s("User bob has left the chat.\n"))]);
    assert_eq!(session.phase(), Phase::Closed);
}

#[test]
fn bad_username_line_closes() {
    let mut session = Session::new();
    let a = session.step(Event::LineRead(s("hello\n")));
    assert_eq!(
        a,
        vec![Action::Reply(s("Invalid username format. Use: Username your_name\n"))]
    );
    assert_eq!(session.phase(), Phase::Closed);
}

#[test]
fn rejected_password_closes() {
    let mut session = Session::new();
    session.step(Event::LineRead(s("Username bob\n")));
    session.step(Event::LineRead(s("wrong\n")));
    let a = session.step(Event::Verdict(PasswordVerdict::Rejected));
    assert_eq!(a, vec![Action::Reply(s("Invalid password. Disconnecting...\n"))]);
    assert_eq!(session.phase(), Phase::Closed);
}

#[test]
fn failed_check_closes() {
    let mut session = Session::new();
    session.step(Event::LineRead(s("Username bob\n")));
    session.step(Event::LineRead(s("pw\n")));
    let a = session.step(Event::Verdict(PasswordVerdict::Failed));
    assert_eq!(a, vec![Action::Reply(s("An error occurred. Disconnecting...\n"))]);
    assert_eq!(session.phase(), Phase::Closed);
}

#[test]
fn end_of_input_during_login_lets_the_client_in_unnamed() {
    let mut session = Session::new();
    let a = session.step(Event::EndOfInput);
    assert_eq!(a, vec![Action::Reply(s("Password for this server:\n"))]);
    let a = session.step(Event::EndOfInput);
    assert_eq!(
        a,
        vec![Action::Register(s("")), Action::Broadcast(s(" has joined the chat!\n"))]
    );
    assert_eq!(session.phase(), Phase::Chatting);
}

#[test]
fn errors_in_chat_close_silently() {
    let mut session = Session::new();
    session.step(Event::LineRead(s("Username z\n")));
    session.step(Event::EndOfInput);
    assert_eq!(session.step(Event::WriteError), vec![]);
    assert_eq!(session.phase(), Phase::Closed);

    let mut other = Session::new();
    other.step(Event::LineRead(s("Username z\n")));
    other.step(Event::EndOfInput);
    assert_eq!(other.step(Event::ReadError), vec![]);
    assert_eq!(other.phase(), Phase::Closed);
}

#[test]
fn closed_session_ignores_everything() {
    let mut session = Session::new();
    session.step(Event::LineRead(s("nope\n")));
    assert_eq!(session.step(Event::LineRead(s("Username x\n"))), vec![]);
    assert_eq!(session.step(Event::Incoming(s("m\n"))), vec![]);
    assert_eq!(session.step(Event::EndOfInput), vec![]);
    assert_eq!(session.phase(), Phase::Closed);
}

#[test]
fn unexpected_events_are_ignored_during_login() {
    let mut session = Session::new();
    assert_eq!(session.step(Event::Incoming(s("m\n"))), vec![]);
    assert_eq!(session.step(Event::Verdict(PasswordVerdict::Accepted)), vec![]);
    assert_eq!(session.phase(), Phase::AwaitingUsername);
}

#[test]
fn registration_comes_once_and_before_any_broadcast() {
    let mut session = Session::new();
    let mut all = Vec::new();
    let events = vec![
        Event::LineRead(s("Username q\n")),
        Event::LineRead(s("pw\n")),
        Event::Verdict(PasswordVerdict::Accepted),
        Event::LineRead(s("one\n")),
        Event::Incoming(s("x\n")),
        Event::LineRead(s("two\n")),
        Event::EndOfInput,
    ];
    for e in events {
        all.extend(session.step(e));
    }
    let registrations: Vec<usize> = all
        .iter()
        .enumerate()
        .filter(|(_, a)| matches!(a, Action::Register(_)))
        .map(|(i, _)| i)
        .collect();
    assert_eq!(registrations.len(), 1);
    for (i, a) in all.iter().enumerate() {
        if matches!(a, Action::Broadcast(_)) {
            assert!(registrations[0] < i);
        }
    }
}

#[test]
fn login_phases() {
    assert!(is_login_phase(Phase::AwaitingUsername));
    assert!(is_login_phase(Phase::AwaitingPassword));
    assert!(is_login_phase(Phase::CheckingPassword));
    assert!(!is_login_phase(Phase::Chatting));
    assert!(!is_login_phase(Phase::Closed));
}

#[test]
fn transcript_of_a_joined_client() {
    let mut session = Session::new();
    session.step(Event::LineRead(s("Username u\n")));
    session.step(Event::LineRead(s("pw\n")));
    let joined = session.step(Event::Verdict(PasswordVerdict::Accepted));
    assert_eq!(joined.last(), Some(&Action::Broadcast(s("u has joined the chat!\n"))));
    let mut all = Vec::new();
    for line in ["first\n", "  second  \n", "\n"].iter() {
        all.extend(session.step(Event::LineRead(s(line))));
    }
    all.extend(session.step(Event::EndOfInput));
    assert_eq!(
        all,
        vec![
            Action::Broadcast(s("u: first\n")),
            Action::Broadcast(s("u: second\n")),
            Action::Broadcast(s("u: \n")),
            Action::Broadcast(s("User u has left the chat.\n")),
        ]
    );
    assert_eq!(session.phase(), Phase::Closed);
}
