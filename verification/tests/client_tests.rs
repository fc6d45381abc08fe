use async_chat_server::client::{
    frame_message, login_accepted, password_line, server_address, username_line,
    username_prefix_text,
};

#[test]
fn address_is_trimmed_host_and_port() {
    assert_eq!(server_address(" 192.168.0.7\n"), "192.168.0.7:8080");
    assert_eq!(server_address("localhost"), "localhost:8080");
}

#[test]
fn username_line_trims_the_name() {
    assert_eq!(username_line("  alice \n"), "Username alice\n");
    assert_eq!(username_line(""), "Username \n");
}

#[test]
fn username_prefix_is_the_protocol_word() {
    assert_eq!(username_prefix_text(), "Username ");
}

#[test]
fn password_line_keeps_the_password() {
    assert_eq!(password_line(" secret "), " secret \n");
}

#[test]
fn login_accepted_only_on_the_exact_reply() {
    assert!(login_accepted("Password accepted.\n"));
    assert!(login_accepted("  Password accepted.  "));
    assert!(!login_accepted("Password for this server:\n"));
    assert!(!login_accepted("Password accepted. Please enter your username:\n"));
    assert!(!login_accepted("Invalid password. Disconnecting...\n"));
}

#[test]
fn framing_adds_a_missing_newline() {
    assert_eq!(frame_message("hello"), "hello\n");
    assert_eq!(frame_message(""), "\n");
}

#[test]
fn framing_keeps_a_line() {
    assert_eq!(frame_message("hello\n"), "hello\n");
    assert_eq!(frame_message("hi\r\n"), "hi\r\n");
}

#[test]
fn framing_twice_is_framing_once() {
    let once = frame_message("x");
    assert_eq!(frame_message(&once), once);
}
