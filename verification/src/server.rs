//! The server's side of the protocol: what a connection goes through from
//! the username line to the chat, as a state machine from events to actions,
//! the notices it broadcasts, and the choice in the server's start menu.

use vstd::prelude::*;
use crate::client::username_prefix;
use crate::client::username_prefix_text;
use crate::text::has_prefix;
use crate::text::lemma_trim_drops_newline;
use crate::text::lemma_trim_idempotent;
use crate::text::lemma_trimmed_is_trimmed;
use crate::text::same_text;
use crate::text::starts_with;
use crate::text::suffix_from;
use crate::text::trim;
use crate::text::trimmed;

verus! {

/// The name that a username line carries: what follows `"Username "`,
/// trimmed; `None` for a line that does not begin so.
pub open spec fn parsed_username(line: Seq<char>) -> Option<Seq<char>> {
    if has_prefix(line, username_prefix()) {
        Some(trimmed(line.subrange(username_prefix().len() as int, line.len() as int)))
    } else {
        None
    }
}

/// The name that the username line `line` carries, if it is one.
pub fn parse_username_line(line: &str) -> (name: Option<String>)
    ensures
        match parsed_username(line@) {
            None => name is None,
            Some(n) => name matches Some(s) && s@ == n,
        },
{
    let prefix = username_prefix_text();
    if starts_with(line, prefix) {
        let rest = suffix_from(line, prefix.unicode_len());
        Some(String::from_str(trim(rest)))
    } else {
        None
    }
}

/// What the server asks once it has the username.
pub open spec fn password_prompt() -> Seq<char> {
    "Password for this server:\n"@
}

/// What the server answers a first line that is not a username line.
pub open spec fn bad_username_notice() -> Seq<char> {
    "Invalid username format. Use: Username your_name\n"@
}

/// What the server answers an accepted password.
pub open spec fn password_accepted_notice() -> Seq<char> {
    "Password accepted. Please enter your username:\n"@
}

/// What the server answers a wrong password.
pub open spec fn password_rejected_notice() -> Seq<char> {
    "Invalid password. Disconnecting...\n"@
}

/// What the server answers where the password could not be checked.
pub open spec fn password_error_notice() -> Seq<char> {
    "An error occurred. Disconnecting...\n"@
}

/// The notice that `user` has joined: `"<user> has joined the chat!\n"`.
pub open spec fn join_notice(user: Seq<char>) -> Seq<char> {
    user + " has joined the chat!\n"@
}

/// The notice that `user` has left: `"User <user> has left the chat.\n"`.
pub open spec fn leave_notice(user: Seq<char>) -> Seq<char> {
    "User "@ + user + " has left the chat.\n"@
}

/// The colon and space between a user's name and what they wrote.
pub open spec fn name_separator() -> Seq<char> {
    seq![':', ' ']
}

/// A chat line as the server broadcasts it: the user, `": "`, the text
/// trimmed, a newline.
pub open spec fn chat_notice(user: Seq<char>, text: Seq<char>) -> Seq<char> {
    user + name_separator() + trimmed(text) + seq!['\n']
}

/// The notice that `user` has joined.
pub fn join_message(user: &str) -> (m: String)
    ensures
        m@ == join_notice(user@),
{
    let mut m = String::from_str(user);
    m.append(" has joined the chat!\n");
    m
}

/// The notice that `user` has left.
pub fn leave_message(user: &str) -> (m: String)
    ensures
        m@ == leave_notice(user@),
{
    let mut m = String::from_str("User ");
    m.append(user);
    m.append(" has left the chat.\n");
    m
}

/// The broadcast of what `user` wrote.
pub fn chat_message(user: &str, text: &str) -> (m: String)
    ensures
        m@ == chat_notice(user@, text@),
{
    proof {
        reveal_strlit(": ");
        reveal_strlit("\n");
    }
    let mut m = String::from_str(user);
    m.append(": ");
    m.append(trim(text));
    m.append("\n");
    m
}

/// Where a connection stands.
#[derive(Debug, Clone, Copy, PartialEq, Eq, Structural)]
pub enum Phase {
    /// The server waits for the first line, which names the user.
    AwaitingUsername,
    /// The server has asked for the password and waits for it.
    AwaitingPassword,
    /// The password has been read and is being checked.
    CheckingPassword,
    /// The user is in the chat.
    Chatting,
    /// The connection is over.
    Closed,
}

/// The outcome of a password check.
#[derive(Debug, Clone, Copy, PartialEq, Eq, Structural)]
pub enum PasswordVerdict {
    /// The password is right.
    Accepted,
    /// The password is wrong.
    Rejected,
    /// The password could not be checked.
    Failed,
}

/// What happens to a connection.
#[derive(Debug, PartialEq, Eq)]
pub enum Event {
    /// A read from the client gave this text (one line, or what was left
    /// before the end of input).
    LineRead(String),
    /// A read from the client found the end of input.
    EndOfInput,
    /// A read from the client failed.
    ReadError,
    /// The password check asked for has this outcome.
    Verdict(PasswordVerdict),
    /// The chat broadcast this text, for the client to see.
    Incoming(String),
    /// Writing to the client failed.
    WriteError,
}

/// What the server does for a connection.
#[derive(Debug, PartialEq, Eq)]
pub enum Action {
    /// Write this text to the client.
    Reply(String),
    /// Check this password; the outcome comes back as a `Verdict`.
    CheckPassword(String),
    /// Record the client under this name.
    Register(String),
    /// Send this text to everyone in the chat.
    Broadcast(String),
}

/// An event, with its texts as character sequences.
pub enum EventModel {
    LineRead(Seq<char>),
    EndOfInput,
    ReadError,
    Verdict(PasswordVerdict),
    Incoming(Seq<char>),
    WriteError,
}

/// An action, with its texts as character sequences.
pub enum ActionModel {
    Reply(Seq<char>),
    CheckPassword(Seq<char>),
    Register(Seq<char>),
    Broadcast(Seq<char>),
}

/// A connection's state: its phase, the name it was given, and what has
/// been read into the line buffer and not yet consumed. The username and
/// password lines are consumed as they are read.
pub struct SessionModel {
    pub phase: Phase,
    pub username: Seq<char>,
    pub line: Seq<char>,
}

impl View for Event {
    type V = EventModel;

    open spec fn view(&self) -> EventModel {
        match self {
            Event::LineRead(t) => EventModel::LineRead(t@),
            Event::EndOfInput => EventModel::EndOfInput,
            Event::ReadError => EventModel::ReadError,
            Event::Verdict(v) => EventModel::Verdict(*v),
            Event::Incoming(t) => EventModel::Incoming(t@),
            Event::WriteError => EventModel::WriteError,
        }
    }
}

impl View for Action {
    type V = ActionModel;

    open spec fn view(&self) -> ActionModel {
        match self {
            Action::Reply(t) => ActionModel::Reply(t@),
            Action::CheckPassword(t) => ActionModel::CheckPassword(t@),
            Action::Register(t) => ActionModel::Register(t@),
            Action::Broadcast(t) => ActionModel::Broadcast(t@),
        }
    }
}

/// The state of a fresh connection.
pub open spec fn initial_session() -> SessionModel {
    SessionModel { phase: Phase::AwaitingUsername, username: Seq::empty(), line: Seq::empty() }
}

/// Whether the phase is one of the login's, before the chat.
pub open spec fn in_login(phase: Phase) -> bool {
    phase == Phase::AwaitingUsername || phase == Phase::AwaitingPassword || phase
        == Phase::CheckingPassword
}

/// Whether the phase is one of the login's.
pub fn is_login_phase(phase: Phase) -> (b: bool)
    ensures
        b == in_login(phase),
{
    match phase {
        Phase::AwaitingUsername | Phase::AwaitingPassword | Phase::CheckingPassword => true,
        Phase::Chatting | Phase::Closed => false,
    }
}

/// The events that the machine takes in a phase. During the login a failed
/// read or write ends the connection's task abruptly, outside the machine.
pub open spec fn event_expected(phase: Phase, e: EventModel) -> bool {
    in_login(phase) ==> !(e is ReadError || e is WriteError)
}

/// One step of a connection: its next state and the actions, in order.
pub open spec fn session_step(s: SessionModel, e: EventModel) -> (SessionModel, Seq<ActionModel>) {
    match s.phase {
        Phase::AwaitingUsername => match e {
            EventModel::LineRead(t) => match parsed_username(t) {
                Some(name) => (
                    SessionModel { phase: Phase::AwaitingPassword, username: name, line: Seq::empty() },
                    seq![ActionModel::Reply(password_prompt())],
                ),
                None => (
                    SessionModel { phase: Phase::Closed, username: s.username, line: t },
                    seq![ActionModel::Reply(bad_username_notice())],
                ),
            },
            EventModel::EndOfInput => (
                SessionModel { phase: Phase::AwaitingPassword, username: s.username, line: s.line },
                seq![ActionModel::Reply(password_prompt())],
            ),
            _ => (s, Seq::empty()),
        },
        Phase::AwaitingPassword => match e {
            EventModel::LineRead(t) => (
                SessionModel {
                    phase: Phase::CheckingPassword,
                    username: s.username,
                    line: Seq::empty(),
                },
                seq![ActionModel::CheckPassword(trimmed(t))],
            ),
            EventModel::EndOfInput => (
                SessionModel { phase: Phase::Chatting, username: s.username, line: s.line },
                seq![
                    ActionModel::Register(s.username),
                    ActionModel::Broadcast(join_notice(s.username)),
                ],
            ),
            _ => (s, Seq::empty()),
        },
        Phase::CheckingPassword => match e {
            EventModel::Verdict(PasswordVerdict::Accepted) => (
                SessionModel { phase: Phase::Chatting, username: s.username, line: s.line },
                seq![
                    ActionModel::Reply(password_accepted_notice()),
                    ActionModel::Register(s.username),
                    ActionModel::Broadcast(join_notice(s.username)),
                ],
            ),
            EventModel::Verdict(PasswordVerdict::Rejected) => (
                SessionModel { phase: Phase::Closed, username: s.username, line: s.line },
                seq![ActionModel::Reply(password_rejected_notice())],
            ),
            EventModel::Verdict(PasswordVerdict::Failed) => (
                SessionModel { phase: Phase::Closed, username: s.username, line: s.line },
                seq![ActionModel::Reply(password_error_notice())],
            ),
            _ => (s, Seq::empty()),
        },
        Phase::Chatting => match e {
            EventModel::LineRead(t) => (
                SessionModel { phase: Phase::Chatting, username: s.username, line: Seq::empty() },
                seq![ActionModel::Broadcast(chat_notice(s.username, s.line + t))],
            ),
            EventModel::EndOfInput => (
                SessionModel { phase: Phase::Closed, username: s.username, line: s.line },
                seq![ActionModel::Broadcast(leave_notice(s.username))],
            ),
            EventModel::ReadError => (
                SessionModel { phase: Phase::Closed, username: s.username, line: s.line },
                Seq::empty(),
            ),
            EventModel::WriteError => (
                SessionModel { phase: Phase::Closed, username: s.username, line: s.line },
                Seq::empty(),
            ),
            EventModel::Incoming(m) => (s, seq![ActionModel::Reply(m)]),
            EventModel::Verdict(_) => (s, Seq::empty()),
        },
        Phase::Closed => (s, Seq::empty()),
    }
}

/// The views of a list of actions.
pub open spec fn action_views(actions: Seq<Action>) -> Seq<ActionModel> {
    actions.map_values(|a: Action| a@)
}

/// One client connection, from its first line to its end.
pub struct Session {
    phase: Phase,
    username: String,
    line: String,
}

impl View for Session {
    type V = SessionModel;

    closed spec fn view(&self) -> SessionModel {
        SessionModel { phase: self.phase, username: self.username@, line: self.line@ }
    }
}

impl Session {
    /// A fresh connection, waiting for the username line.
    pub fn new() -> (s: Session)
        ensures
            s@ == initial_session(),
    {
        Session { phase: Phase::AwaitingUsername, username: String::new(), line: String::new() }
    }

    /// Where the connection stands.
    pub fn phase(&self) -> (p: Phase)
        ensures
            p == self@.phase,
    {
        self.phase
    }

    /// The name the client gave.
    pub fn username(&self) -> (u: &str)
        ensures
            u@ == self@.username,
    {
        self.username.as_str()
    }

    /// Takes in one event: moves to the next state and says what to do.
    pub fn step(&mut self, event: Event) -> (actions: Vec<Action>)
        requires
            event_expected(old(self)@.phase, event@),
        ensures
            final(self)@ == session_step(old(self)@, event@).0,
            action_views(actions@) == session_step(old(self)@, event@).1,
            actions@.len() == session_step(old(self)@, event@).1.len(),
            forall|i: int|
                0 <= i < actions@.len() ==> #[trigger] actions@[i]@ == session_step(
                    old(self)@,
                    event@,
                ).1[i],
    {
        let ghost s = self@;
        let ghost e = event@;
        let mut actions: Vec<Action> = Vec::new();
        match self.phase {
            Phase::AwaitingUsername => match event {
                Event::LineRead(t) => match parse_username_line(t.as_str()) {
                    Some(name) => {
                        self.username = name;
                        self.line = String::new();
                        self.phase = Phase::AwaitingPassword;
                        actions.push(Action::Reply(String::from_str("Password for this server:\n")));
                    },
                    None => {
                        self.line = t;
                        self.phase = Phase::Closed;
                        actions.push(
                            Action::Reply(
                                String::from_str(
                                    "Invalid username format. Use: Username your_name\n",
                                ),
                            ),
                        );
                    },
                },
                Event::EndOfInput => {
                    self.phase = Phase::AwaitingPassword;
                    actions.push(Action::Reply(String::from_str("Password for this server:\n")));
                },
                _ => {},
            },
            Phase::AwaitingPassword => match event {
                Event::LineRead(t) => {
                    let password = String::from_str(trim(t.as_str()));
                    self.line = String::new();
                    self.phase = Phase::CheckingPassword;
                    actions.push(Action::CheckPassword(password));
                },
                Event::EndOfInput => {
                    self.phase = Phase::Chatting;
                    actions.push(Action::Register(self.username.clone()));
                    actions.push(Action::Broadcast(join_message(self.username.as_str())));
                },
                _ => {},
            },
            Phase::CheckingPassword => match event {
                Event::Verdict(PasswordVerdict::Accepted) => {
                    self.phase = Phase::Chatting;
                    actions.push(
                        Action::Reply(
                            String::from_str("Password accepted. Please enter your username:\n"),
                        ),
                    );
                    actions.push(Action::Register(self.username.clone()));
                    actions.push(Action::Broadcast(join_message(self.username.as_str())));
                },
                Event::Verdict(PasswordVerdict::Rejected) => {
                    self.phase = Phase::Closed;
                    actions.push(
                        Action::Reply(String::from_str("Invalid password. Disconnecting...\n")),
                    );
                },
                Event::Verdict(PasswordVerdict::Failed) => {
                    self.phase = Phase::Closed;
                    actions.push(
                        Action::Reply(String::from_str("An error occurred. Disconnecting...\n")),
                    );
                },
                _ => {},
            },
            Phase::Chatting => match event {
                Event::LineRead(t) => {
                    self.line.append(t.as_str());
                    let m = chat_message(self.username.as_str(), self.line.as_str());
                    self.line = String::new();
                    actions.push(Action::Broadcast(m));
                },
                Event::EndOfInput => {
                    self.phase = Phase::Closed;
                    actions.push(Action::Broadcast(leave_message(self.username.as_str())));
                },
                Event::ReadError => {
                    self.phase = Phase::Closed;
                },
                Event::WriteError => {
                    self.phase = Phase::Closed;
                },
                Event::Incoming(m) => {
                    actions.push(Action::Reply(m));
                },
                Event::Verdict(_) => {},
            },
            Phase::Closed => {},
        }
        assert(action_views(actions@) =~= session_step(s, e).1);
        actions
    }
}

/// What the operator picks in the server's start menu.
#[derive(Debug, Clone, Copy, PartialEq, Eq, Structural)]
pub enum MenuChoice {
    /// `0`: leave.
    Exit,
    /// `1`: start serving.
    StartServer,
    /// `2`: set a new password.
    SetPassword,
    /// Anything else.
    Invalid,
}

/// The choice that an input line makes, once trimmed.
pub open spec fn menu_choice_of(input: Seq<char>) -> MenuChoice {
    let t = trimmed(input);
    if t == seq!['0'] {
        MenuChoice::Exit
    } else if t == seq!['1'] {
        MenuChoice::StartServer
    } else if t == seq!['2'] {
        MenuChoice::SetPassword
    } else {
        MenuChoice::Invalid
    }
}

/// The choice that the operator's input line makes.
pub fn menu_choice(input: &str) -> (c: MenuChoice)
    ensures
        c == menu_choice_of(input@),
{
    let zero = "0";
    let one = "1";
    let two = "2";
    proof {
        reveal_strlit("0");
        reveal_strlit("1");
        reveal_strlit("2");
        assert(zero@ =~= seq!['0']);
        assert(one@ =~= seq!['1']);
        assert(two@ =~= seq!['2']);
    }
    let t = trim(input);
    if same_text(t, zero) {
        MenuChoice::Exit
    } else if same_text(t, one) {
        MenuChoice::StartServer
    } else if same_text(t, two) {
        MenuChoice::SetPassword
    } else {
        MenuChoice::Invalid
    }
}

/// A closed connection stays closed and does nothing more, whatever happens.
pub proof fn lemma_closed_is_final(s: SessionModel, e: EventModel)
    requires
        s.phase == Phase::Closed,
    ensures
        session_step(s, e) == (s, Seq::<ActionModel>::empty()),
{
}

/// From the password check, only an accepted password leads into the chat;
/// a rejected or failed check ends the connection without registering or
/// announcing the client.
pub proof fn lemma_password_gate(s: SessionModel, e: EventModel)
    requires
        s.phase == Phase::CheckingPassword,
    ensures
        (session_step(s, e).0.phase == Phase::Chatting) <==> (e == EventModel::Verdict(
            PasswordVerdict::Accepted,
        )),
        e == EventModel::Verdict(PasswordVerdict::Rejected) || e == EventModel::Verdict(
            PasswordVerdict::Failed,
        ) ==> {
            let (n, acts) = session_step(s, e);
            &&& n.phase == Phase::Closed
            &&& forall|i: int|
                0 <= i < acts.len() ==> !(#[trigger] acts[i] is Register) && !(acts[i] is Broadcast)
        },
{
}

/// A client is registered only as it enters the chat, under the name it
/// gave; and entering the chat always registers it.
pub proof fn lemma_registered_on_entry(s: SessionModel, e: EventModel)
    ensures
        ({
            let (n, acts) = session_step(s, e);
            &&& forall|i: int|
                0 <= i < acts.len() && (#[trigger] acts[i] is Register) ==> s.phase
                    != Phase::Chatting && n.phase == Phase::Chatting && acts[i]
                    == ActionModel::Register(s.username)
            &&& (s.phase != Phase::Chatting && n.phase == Phase::Chatting) ==> acts.contains(
                ActionModel::Register(s.username),
            )
        }),
{
    let (n, acts) = session_step(s, e);
    if s.phase != Phase::Chatting && n.phase == Phase::Chatting {
        if s.phase == Phase::AwaitingPassword {
            assert(acts[0] == ActionModel::Register(s.username));
        } else {
            assert(acts[1] == ActionModel::Register(s.username));
        }
    }
}

/// Once the username line has been read, the name no longer changes.
pub proof fn lemma_username_kept(s: SessionModel, e: EventModel)
    requires
        s.phase != Phase::AwaitingUsername,
    ensures
        session_step(s, e).0.username == s.username,
{
}

/// What a user in the chat writes is broadcast, alone, under their name.
pub proof fn lemma_chat_attributed(s: SessionModel, t: Seq<char>)
    requires
        s.phase == Phase::Chatting,
    ensures
        ({
            let (n, acts) = session_step(s, EventModel::LineRead(t));
            &&& n.phase == Phase::Chatting
            &&& acts.len() == 1
            &&& acts[0] is Broadcast
            &&& has_prefix(acts[0]->Broadcast_0, s.username + name_separator())
        }),
{
    let m = chat_notice(s.username, s.line + t);
    let p = s.username + name_separator();
    assert(m.subrange(0, p.len() as int) =~= p);
}

/// The server reads back the name that the client's username line carries:
/// the line `username_line` builds for a name parses to that name, trimmed.
pub proof fn lemma_username_round_trip(name: Seq<char>)
    ensures
        parsed_username(username_prefix() + trimmed(name) + seq!['\n']) == Some(trimmed(name)),
{
    let p = username_prefix();
    let r = trimmed(name);
    let line = p + r + seq!['\n'];
    assert(line.subrange(0, p.len() as int) =~= p);
    assert(line.subrange(p.len() as int, line.len() as int) =~= r + seq!['\n']);
    lemma_trimmed_is_trimmed(name);
    lemma_trim_drops_newline(r);
}

/// A connection that starts fresh and takes `events` one after the other:
/// the state it ends in and all its actions, in order.
pub open spec fn session_run(s: SessionModel, events: Seq<EventModel>) -> (
    SessionModel,
    Seq<ActionModel>,
)
    decreases events.len(),
{
    if events.len() == 0 {
        (s, Seq::empty())
    } else {
        let (m, before) = session_run(s, events.drop_last());
        let (n, now) = session_step(m, events.last());
        (n, before + now)
    }
}

/// Every broadcast comes after a registration.
pub open spec fn broadcasts_follow_registration(acts: Seq<ActionModel>) -> bool {
    forall|i: int|
        0 <= i < acts.len() && (#[trigger] acts[i] is Broadcast) ==> exists|j: int|
            0 <= j < i && (#[trigger] acts[j] is Register)
}

/// No more than one registration.
pub open spec fn registered_at_most_once(acts: Seq<ActionModel>) -> bool {
    forall|i: int, j: int|
        0 <= i < acts.len() && 0 <= j < acts.len() && (#[trigger] acts[i] is Register) && (
        #[trigger] acts[j] is Register) ==> i == j
}

spec fn run_invariant(n: SessionModel, acts: Seq<ActionModel>) -> bool {
    &&& broadcasts_follow_registration(acts)
    &&& registered_at_most_once(acts)
    &&& in_login(n.phase) ==> forall|i: int|
        0 <= i < acts.len() ==> !(#[trigger] acts[i] is Register) && !(acts[i] is Broadcast)
    &&& n.phase == Phase::Chatting ==> exists|j: int| 0 <= j < acts.len() && (#[trigger] acts[j] is Register)
}

proof fn lemma_run_invariant(events: Seq<EventModel>)
    ensures
        run_invariant(session_run(initial_session(), events).0, session_run(initial_session(), events).1),
    decreases events.len(),
{
    if events.len() > 0 {
        lemma_run_invariant(events.drop_last());
        let (m, a) = session_run(initial_session(), events.drop_last());
        let e = events.last();
        let (n, b) = session_step(m, e);
        let all = a + b;
        assert(session_run(initial_session(), events) == (n, all));
        if in_login(m.phase) && n.phase == Phase::Chatting {
            // the step registers, then announces; nothing before it did either
            let r: int = if m.phase == Phase::AwaitingPassword { 0 } else { 1 };
            assert(b[r] is Register);
            assert(all[a.len() + r] is Register);
            assert forall|i: int|
                0 <= i < all.len() && (#[trigger] all[i] is Broadcast) implies exists|j: int|
                0 <= j < i && (#[trigger] all[j] is Register) by {
                assert(i == a.len() + r + 1);
                assert(all[a.len() + r] is Register);
            }
            assert forall|i: int, j: int|
                0 <= i < all.len() && 0 <= j < all.len() && (#[trigger] all[i] is Register) && (
                #[trigger] all[j] is Register) implies i == j by {
                if i < a.len() {
                    assert(all[i] == a[i]);
                }
                if j < a.len() {
                    assert(all[j] == a[j]);
                }
            }
        } else if m.phase == Phase::Chatting {
            let w = choose|j: int| 0 <= j < a.len() && (#[trigger] a[j] is Register);
            assert(all[w] == a[w]);
            assert forall|i: int|
                0 <= i < all.len() && (#[trigger] all[i] is Broadcast) implies exists|j: int|
                0 <= j < i && (#[trigger] all[j] is Register) by {
                if i < a.len() {
                    assert(all[i] == a[i]);
                    let k = choose|j: int| 0 <= j < i && (#[trigger] a[j] is Register);
                    assert(all[k] == a[k]);
                } else {
                    assert(all[w] is Register);
                }
            }
            assert forall|i: int, j: int|
                0 <= i < all.len() && 0 <= j < all.len() && (#[trigger] all[i] is Register) && (
                #[trigger] all[j] is Register) implies i == j by {
                assert(all[i] == a[i]);
                assert(all[j] == a[j]);
            }
        } else {
            // a login step that stays in the login or closes, or a closed connection
            assert(forall|i: int| 0 <= i < b.len() ==> !(#[trigger] b[i] is Register) && !(b[i] is Broadcast));
            assert forall|i: int|
                0 <= i < all.len() && (#[trigger] all[i] is Broadcast) implies exists|j: int|
                0 <= j < i && (#[trigger] all[j] is Register) by {
                assert(all[i] == a[i]);
                let k = choose|j: int| 0 <= j < i && (#[trigger] a[j] is Register);
                assert(all[k] == a[k]);
            }
            assert forall|i: int, j: int|
                0 <= i < all.len() && 0 <= j < all.len() && (#[trigger] all[i] is Register) && (
                #[trigger] all[j] is Register) implies i == j by {
                assert(all[i] == a[i]);
                assert(all[j] == a[j]);
            }
            if n.phase == Phase::Chatting {
                let w = choose|j: int| 0 <= j < a.len() && (#[trigger] a[j] is Register);
                assert(all[w] == a[w]);
            }
            assert forall|i: int| 0 <= i < all.len() && in_login(n.phase) implies !(
            #[trigger] all[i] is Register) && !(all[i] is Broadcast) by {
                if i < a.len() {
                    assert(all[i] == a[i]);
                } else {
                    assert(all[i] == b[i - a.len()]);
                }
            }
        }
    }
}

/// Over any sequence of events on a fresh connection, nothing is broadcast
/// for it before it is registered, and it is registered at most once.
pub proof fn lemma_run_registers_first(events: Seq<EventModel>)
    ensures
        broadcasts_follow_registration(session_run(initial_session(), events).1),
        registered_at_most_once(session_run(initial_session(), events).1),
{
    lemma_run_invariant(events);
}

proof fn lemma_run_buffer_empty(events: Seq<EventModel>)
    ensures
        session_run(initial_session(), events).0.phase != Phase::Closed ==> session_run(
            initial_session(),
            events,
        ).0.line =~= Seq::<char>::empty(),
    decreases events.len(),
{
    if events.len() > 0 {
        lemma_run_buffer_empty(events.drop_last());
    }
}

/// On a connection that started fresh and is in the chat, whatever events
/// came before, the next line read is broadcast as that line alone under the
/// user's name: nothing read during the login is repeated.
pub proof fn lemma_chat_line_alone(events: Seq<EventModel>, t: Seq<char>)
    requires
        session_run(initial_session(), events).0.phase == Phase::Chatting,
    ensures
        ({
            let s = session_run(initial_session(), events).0;
            session_step(s, EventModel::LineRead(t)).1 == seq![
                ActionModel::Broadcast(chat_notice(s.username, t)),
            ]
        }),
{
    lemma_run_buffer_empty(events);
    let s = session_run(initial_session(), events).0;
    assert(s.line + t =~= t);
}

/// The events of a client sending `lines`, one after the other.
pub open spec fn line_events(lines: Seq<Seq<char>>) -> Seq<EventModel> {
    lines.map_values(|l: Seq<char>| EventModel::LineRead(l))
}

/// The broadcasts of `user`'s chat lines `lines`, one after the other.
pub open spec fn chat_broadcasts(user: Seq<char>, lines: Seq<Seq<char>>) -> Seq<ActionModel> {
    lines.map_values(|l: Seq<char>| ActionModel::Broadcast(chat_notice(user, l)))
}

proof fn lemma_run_concat(s: SessionModel, a: Seq<EventModel>, b: Seq<EventModel>)
    ensures
        session_run(s, a + b) == ({
            let (m, x) = session_run(s, a);
            let (n, y) = session_run(m, b);
            (n, x + y)
        }),
    decreases b.len(),
{
    if b.len() == 0 {
        assert(a + b =~= a);
        let x = session_run(s, a).1;
        assert(x + Seq::<ActionModel>::empty() =~= x);
    } else {
        lemma_run_concat(s, a, b.drop_last());
        assert((a + b).drop_last() =~= a + b.drop_last());
        assert((a + b).last() == b.last());
        let (m, x) = session_run(s, a);
        let (k, y) = session_run(m, b.drop_last());
        let (n, z) = session_step(k, b.last());
        assert(x + y + z =~= x + (y + z));
    }
}

proof fn lemma_run_chat_lines(s: SessionModel, lines: Seq<Seq<char>>)
    requires
        s.phase == Phase::Chatting,
        s.line == Seq::<char>::empty(),
    ensures
        session_run(s, line_events(lines)) == (s, chat_broadcasts(s.username, lines)),
    decreases lines.len(),
{
    if lines.len() == 0 {
        assert(line_events(lines) =~= Seq::<EventModel>::empty());
        assert(chat_broadcasts(s.username, lines) =~= Seq::<ActionModel>::empty());
    } else {
        let rest = lines.drop_last();
        lemma_run_chat_lines(s, rest);
        assert(line_events(lines).drop_last() =~= line_events(rest));
        assert(line_events(lines).last() == EventModel::LineRead(lines.last()));
        assert(s.line + lines.last() =~= lines.last());
        let next = SessionModel { phase: Phase::Chatting, username: s.username, line: Seq::empty() };
        assert(next == s);
        assert(chat_broadcasts(s.username, rest) + seq![
            ActionModel::Broadcast(chat_notice(s.username, lines.last())),
        ] =~= chat_broadcasts(s.username, lines));
    }
}

/// After a client has joined, sending the lines `lines` and then closing its
/// input makes the server broadcast, in order, each line under its name and
/// then that it has left; the connection ends closed.
pub proof fn lemma_chat_transcript(pre: Seq<EventModel>, lines: Seq<Seq<char>>)
    requires
        session_run(initial_session(), pre).0.phase == Phase::Chatting,
    ensures
        ({
            let (s, before) = session_run(initial_session(), pre);
            session_run(initial_session(), pre + line_events(lines) + seq![EventModel::EndOfInput])
                == (
                SessionModel { phase: Phase::Closed, username: s.username, line: Seq::empty() },
                before + chat_broadcasts(s.username, lines) + seq![
                    ActionModel::Broadcast(leave_notice(s.username)),
                ],
            )
        }),
{
    let (s, before) = session_run(initial_session(), pre);
    lemma_run_buffer_empty(pre);
    assert(s.line == Seq::<char>::empty());
    lemma_run_chat_lines(s, lines);
    lemma_run_concat(initial_session(), pre, line_events(lines));
    lemma_run_concat(initial_session(), pre + line_events(lines), seq![EventModel::EndOfInput]);
    let end = seq![EventModel::EndOfInput];
    assert(end.drop_last() =~= Seq::<EventModel>::empty());
    assert(session_run(s, end) == session_step(
        s,
        EventModel::EndOfInput,
    )) by {
        assert(session_run(s, end.drop_last()) == (s, Seq::<ActionModel>::empty()));
        let (n, now) = session_step(s, EventModel::EndOfInput);
        assert(Seq::<ActionModel>::empty() + now =~= now);
    }
}

/// The password checked is the whole password line, trimmed, whatever its
/// length: a connection waiting for its password that reads `t` asks for
/// exactly one check, of `trimmed(t)`, and keeps nothing of the line; two
/// lines that trim alike are checked alike.
pub proof fn lemma_whole_password_checked(s: SessionModel, t: Seq<char>, u: Seq<char>)
    requires
        s.phase == Phase::AwaitingPassword,
    ensures
        session_step(s, EventModel::LineRead(t)).1 == seq![ActionModel::CheckPassword(trimmed(t))],
        session_step(s, EventModel::LineRead(t)).0 == (SessionModel {
            phase: Phase::CheckingPassword,
            username: s.username,
            line: Seq::empty(),
        }),
        trimmed(t) == trimmed(u) ==> session_step(s, EventModel::LineRead(t)).1 == session_step(
            s,
            EventModel::LineRead(u),
        ).1,
{
}

/// A chat broadcast is the name, `": "`, the whole trimmed text and a
/// newline: it begins with the name and the separator, ends with a newline,
/// and what lies between is the trimmed text, of whatever length.
pub proof fn lemma_chat_notice_parts(user: Seq<char>, text: Seq<char>)
    ensures
        ({
            let m = chat_notice(user, text);
            let k: int = user.len() + 2int;
            &&& m.len() == user.len() + 2 + trimmed(text).len() + 1
            &&& m.subrange(0, user.len() as int) == user
            &&& m[user.len() as int] == ':'
            &&& m[user.len() + 1int] == ' '
            &&& m.subrange(k, m.len() - 1) == trimmed(text)
            &&& m.last() == '\n'
        }),
{
    let m = chat_notice(user, text);
    let k: int = user.len() + 2int;
    assert(m.subrange(0, user.len() as int) =~= user);
    assert(m.subrange(k, m.len() - 1) =~= trimmed(text));
}

/// The join notice is the name followed by `" has joined the chat!\n"`, and
/// the leave notice is `"User "`, the name and `" has left the chat.\n"`:
/// both carry the whole name, whatever its length.
pub proof fn lemma_join_leave_parts(user: Seq<char>)
    ensures
        join_notice(user).subrange(0, user.len() as int) == user,
        join_notice(user).subrange(user.len() as int, join_notice(user).len() as int)
            == " has joined the chat!\n"@,
        leave_notice(user).subrange(0, "User "@.len() as int) == "User "@,
        leave_notice(user).subrange("User "@.len() as int, ("User "@.len() + user.len()) as int) == user,
        leave_notice(user).subrange(("User "@.len() + user.len()) as int, leave_notice(user).len() as int)
            == " has left the chat.\n"@,
{
    let j = join_notice(user);
    assert(j.subrange(0, user.len() as int) =~= user);
    assert(j.subrange(user.len() as int, j.len() as int) =~= " has joined the chat!\n"@);
    let l = leave_notice(user);
    let p = "User "@;
    assert(l.subrange(0, p.len() as int) =~= p);
    assert(l.subrange(p.len() as int, (p.len() + user.len()) as int) =~= user);
    assert(l.subrange((p.len() + user.len()) as int, l.len() as int) =~= " has left the chat.\n"@);
}

/// The menu choice depends on the trimmed input alone, so a line typed with
/// its newline chooses as the bare text does; `"0"`, `"1"` and `"2"` choose
/// leaving, starting and setting the password, and any other text is
/// invalid.
pub proof fn lemma_menu_choice_by_trimmed_text(input: Seq<char>)
    ensures
        menu_choice_of(input) == menu_choice_of(trimmed(input)),
        trimmed(input) == seq!['0'] ==> menu_choice_of(input) == MenuChoice::Exit,
        trimmed(input) == seq!['1'] ==> menu_choice_of(input) == MenuChoice::StartServer,
        trimmed(input) == seq!['2'] ==> menu_choice_of(input) == MenuChoice::SetPassword,
        trimmed(input) != seq!['0'] && trimmed(input) != seq!['1'] && trimmed(input) != seq!['2']
            ==> menu_choice_of(input) == MenuChoice::Invalid,
{
    lemma_trim_idempotent(input);
}

} // verus!
