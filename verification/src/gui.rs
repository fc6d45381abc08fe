//! The chat window's model: the login form, the screen shown, the
//! conversation so far and the line being typed.

use vstd::prelude::*;

verus! {

/// The screen the window shows.
#[derive(Debug, Clone, Copy, PartialEq, Eq, Structural)]
pub enum AppState {
    /// The login form.
    Login,
    /// The conversation.
    Chatroom,
}

/// What the window holds, with its texts as character sequences.
pub struct GuiModel {
    pub ip: Seq<char>,
    pub password: Seq<char>,
    pub username: Seq<char>,
    pub state: AppState,
    pub messages: Seq<Seq<char>>,
    pub input: Seq<char>,
}

/// How the window shows a message the user sent: `"You: "` before it.
pub open spec fn own_message(text: Seq<char>) -> Seq<char> {
    seq!['Y', 'o', 'u', ':', ' '] + text
}

/// The chat window. The form fields and the input line are edited through
/// the `*_mut` accessors; the conversation only grows.
#[allow(clippy::upper_case_acronyms)]
pub struct GUI {
    ip: String,
    password: String,
    username: String,
    state: AppState,
    messages: Vec<String>,
    input: String,
}

impl View for GUI {
    type V = GuiModel;

    closed spec fn view(&self) -> GuiModel {
        GuiModel {
            ip: self.ip@,
            password: self.password@,
            username: self.username@,
            state: self.state,
            messages: self.messages@.map_values(|m: String| m@),
            input: self.input@,
        }
    }
}

impl Default for GUI {
    fn default() -> (g: GUI)
        ensures
            g@ == (GuiModel {
                ip: Seq::empty(),
                password: Seq::empty(),
                username: Seq::empty(),
                state: AppState::Login,
                messages: Seq::empty(),
                input: Seq::empty(),
            }),
    {
        let g = GUI {
            ip: String::new(),
            password: String::new(),
            username: String::new(),
            state: AppState::Login,
            messages: Vec::new(),
            input: String::new(),
        };
        assert(g@.messages =~= Seq::<Seq<char>>::empty());
        g
    }
}

impl GUI {
    /// The server's address field, for editing.
    pub fn ip_mut(&mut self) -> (field: &mut String)
        ensures
            field@ == old(self)@.ip,
            final(self)@ == (GuiModel { ip: final(field)@, ..old(self)@ }),
    {
        &mut self.ip
    }

    /// The password field, for editing.
    pub fn password_mut(&mut self) -> (field: &mut String)
        ensures
            field@ == old(self)@.password,
            final(self)@ == (GuiModel { password: final(field)@, ..old(self)@ }),
    {
        &mut self.password
    }

    /// The user name field, for editing.
    pub fn username_mut(&mut self) -> (field: &mut String)
        ensures
            field@ == old(self)@.username,
            final(self)@ == (GuiModel { username: final(field)@, ..old(self)@ }),
    {
        &mut self.username
    }

    /// The message being typed, for editing.
    pub fn input_mut(&mut self) -> (field: &mut String)
        ensures
            field@ == old(self)@.input,
            final(self)@ == (GuiModel { input: final(field)@, ..old(self)@ }),
    {
        &mut self.input
    }

    /// The message being typed.
    pub fn input(&self) -> (t: &str)
        ensures
            t@ == self@.input,
    {
        self.input.as_str()
    }

    /// The screen shown.
    pub fn state(&self) -> (s: AppState)
        ensures
            s == self@.state,
    {
        self.state
    }

    /// The number of messages in the conversation.
    pub fn message_count(&self) -> (n: usize)
        ensures
            n == self@.messages.len(),
    {
        self.messages.len()
    }

    /// The message at position `i` of the conversation.
    pub fn message(&self, i: usize) -> (m: &str)
        requires
            i < self@.messages.len(),
        ensures
            m@ == self@.messages[i as int],
    {
        self.messages[i].as_str()
    }

    /// What the Connect button hands to the client: the address, the name
    /// and the password as typed. The screen changes once the login is over
    /// (`login_finished`).
    pub fn connect_request(&self) -> (req: (String, String, String))
        ensures
            req.0@ == self@.ip,
            req.1@ == self@.username,
            req.2@ == self@.password,
    {
        (self.ip.clone(), self.username.clone(), self.password.clone())
    }

    /// The outcome of a login: the conversation on success, the login form
    /// otherwise.
    pub fn login_finished(&mut self, ok: bool)
        ensures
            final(self)@ == (GuiModel {
                state: if ok {
                    AppState::Chatroom
                } else {
                    AppState::Login
                },
                ..old(self)@
            }),
    {
        self.state = if ok {
            AppState::Chatroom
        } else {
            AppState::Login
        };
    }

    /// The Send button: hands back the typed line to be sent, adds it to the
    /// conversation as the user's own, and empties the input.
    pub fn send(&mut self) -> (sent: String)
        ensures
            sent@ == old(self)@.input,
            final(self)@ == (GuiModel {
                messages: old(self)@.messages.push(own_message(old(self)@.input)),
                input: Seq::empty(),
                ..old(self)@
            }),
    {
        let you = "You: ";
        proof {
            reveal_strlit("You: ");
            assert(you@ =~= seq!['Y', 'o', 'u', ':', ' ']);
        }
        let sent = self.input.clone();
        let mut shown = String::from_str(you);
        shown.append(self.input.as_str());
        let ghost before = self.messages@;
        let ghost shown_text = shown@;
        assert(shown_text == own_message(sent@));
        self.messages.push(shown);
        self.input = String::new();
        assert(self.messages@ == before.push(self.messages@.last()));
        assert(self.messages@.map_values(|m: String| m@) =~= before.map_values(|m: String| m@).push(
            own_message(sent@),
        ));
        sent
    }
}

/// The conversation only grows: sending keeps every earlier message where
/// it was and adds one at the end.
pub proof fn lemma_send_appends(before: GuiModel, after: GuiModel)
    requires
        after == (GuiModel {
            messages: before.messages.push(own_message(before.input)),
            input: Seq::empty(),
            ..before
        }),
    ensures
        after.messages.len() == before.messages.len() + 1,
        after.messages.subrange(0, before.messages.len() as int) == before.messages,
        after.messages.last() == own_message(before.input),
{
    assert(after.messages.subrange(0, before.messages.len() as int) =~= before.messages);
}

} // verus!
