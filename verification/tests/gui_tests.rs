use async_chat_server::gui::{AppState, GUI};

#[test]
fn fresh_window_shows_the_login_form() {
    let mut g = GUI::default();
    assert_eq!(g.state(), AppState::Login);
    assert_eq!(g.message_count(), 0);
    assert_eq!(g.ip_mut().as_str(), "");
    assert_eq!(g.input(), "");
}

#[test]
fn send_adds_own_message_and_clears_input() {
    let mut g = GUI::default();
    *g.input_mut() = "hello".to_string();
    let sent = g.send();
    assert_eq!(sent, "hello");
    assert_eq!(g.input(), "");
    assert_eq!(g.message_count(), 1);
    assert_eq!(g.message(0), "You: hello");
    *g.input_mut() = "again".to_string();
    g.send();
    assert_eq!(g.message_count(), 2);
    assert_eq!(g.message(0), "You: hello");
    assert_eq!(g.message(1), "You: again");
}

#[test]
fn send_with_empty_input_still_shows_a_message() {
    let mut g = GUI::default();
    assert_eq!(g.send(), "");
    assert_eq!(g.message(0), "You: ");
}

#[test]
fn connect_hands_over_the_form() {
    let mut g = GUI::default();
    *g.ip_mut() = "10.0.0.1".to_string();
    *g.username_mut() = "bob".to_string();
    *g.password_mut() = "pw".to_string();
    let (ip, user, pw) = g.connect_request();
    assert_eq!((ip.as_str(), user.as_str(), pw.as_str()), ("10.0.0.1", "bob", "pw"));
    assert_eq!(g.state(), AppState::Login);
}

#[test]
fn successful_login_opens_the_chatroom() {
    let mut g = GUI::default();
    *g.ip_mut() = "10.0.0.1".to_string();
    g.login_finished(true);
    assert_eq!(g.state(), AppState::Chatroom);
    assert_eq!(g.ip_mut().as_str(), "10.0.0.1");
    assert_eq!(g.message_count(), 0);
}

#[test]
fn failed_login_keeps_the_form() {
    let mut g = GUI::default();
    g.login_finished(false);
    assert_eq!(g.state(), AppState::Login);
    g.login_finished(true);
    g.login_finished(false);
    assert_eq!(g.state(), AppState::Login);
}
