//! The client's side of the protocol: the server's address, the login
//! lines, the judgement of the server's reply, and the framing of chat
//! messages into lines.

use vstd::prelude::*;
use crate::text::ends_with_newline;
use crate::text::is_newline_terminated;
use crate::text::same_text;
use crate::text::trim;
use crate::text::trimmed;

verus! {

/// The word that opens the line naming the user: `"Username "`.
pub open spec fn username_prefix() -> Seq<char> {
    seq!['U', 's', 'e', 'r', 'n', 'a', 'm', 'e', ' ']
}

/// The text `"Username "`.
pub fn username_prefix_text() -> (t: &'static str)
    ensures
        t@ == username_prefix(),
{
    proof {
        reveal_strlit("Username ");
    }
    "Username "
}

/// The port the server listens on, as it follows the host: `":8080"`.
pub open spec fn port_suffix() -> Seq<char> {
    seq![':', '8', '0', '8', '0']
}

/// The reply by which the server accepts a login: `"Password accepted."`.
pub open spec fn accepted_reply() -> Seq<char> {
    seq![
        'P',
        'a',
        's',
        's',
        'w',
        'o',
        'r',
        'd',
        ' ',
        'a',
        'c',
        'c',
        'e',
        'p',
        't',
        'e',
        'd',
        '.',
    ]
}

/// The address to connect to: the trimmed host followed by `":8080"`.
pub fn server_address(server_ip: &str) -> (addr: String)
    ensures
        addr@ == trimmed(server_ip@) + port_suffix(),
{
    proof {
        reveal_strlit(":8080");
    }
    let mut addr = String::from_str(trim(server_ip));
    addr.append(":8080");
    addr
}

/// The line that names the user: `"Username "`, the trimmed name, a newline.
pub fn username_line(username: &str) -> (line: String)
    ensures
        line@ == username_prefix() + trimmed(username@) + seq!['\n'],
{
    proof {
        reveal_strlit("\n");
    }
    let mut line = String::from_str(username_prefix_text());
    line.append(trim(username));
    line.append("\n");
    line
}

/// The line that carries the password: the password as given, a newline.
pub fn password_line(password: &str) -> (line: String)
    ensures
        line@ == password@ + seq!['\n'],
{
    proof {
        reveal_strlit("\n");
    }
    let mut line = String::from_str(password);
    line.append("\n");
    line
}

/// Whether the server's reply, trimmed, is `"Password accepted."`.
pub fn login_accepted(response: &str) -> (ok: bool)
    ensures
        ok == (trimmed(response@) == accepted_reply()),
{
    let accepted = "Password accepted.";
    proof {
        reveal_strlit("Password accepted.");
        assert(accepted@ =~= accepted_reply());
    }
    same_text(trim(response), accepted)
}

/// A chat message as a line: unchanged where it already ends with a
/// newline, else with one added.
pub open spec fn framed(msg: Seq<char>) -> Seq<char> {
    if is_newline_terminated(msg) {
        msg
    } else {
        msg + seq!['\n']
    }
}

/// The line that carries the chat message `msg` to the server.
pub fn frame_message(msg: &str) -> (line: String)
    ensures
        line@ == framed(msg@),
{
    proof {
        reveal_strlit("\n");
    }
    let mut line = String::from_str(msg);
    if !ends_with_newline(msg) {
        line.append("\n");
    }
    line
}

/// Every framed message is one line: it ends with a newline.
pub proof fn lemma_framed_ends_line(msg: Seq<char>)
    ensures
        is_newline_terminated(framed(msg)),
{
}

/// Framing a line again leaves it as it is.
pub proof fn lemma_framing_idempotent(msg: Seq<char>)
    ensures
        framed(framed(msg)) == framed(msg),
{
}

/// Framing keeps the message: the line is the message, followed by a newline
/// only where the message had none.
pub proof fn lemma_framing_keeps_message(msg: Seq<char>)
    ensures
        framed(msg).subrange(0, msg.len() as int) == msg,
        framed(msg).len() == msg.len() || framed(msg).len() == msg.len() + 1,
{
    assert(framed(msg).subrange(0, msg.len() as int) =~= msg);
}

} // verus!
