//! The loop at the terminal: what arrives from the server and from the user, and what each leads to.
use crate::backend::{Client, ClientView};
use crate::codec::{parsed, Reading};
use crate::json::Json;
use crate::keys::{KeyPress, Pressed, PressedView, Turned};
use crate::options::{Options, OptionsView};
use crate::session::{failure, failure_text, App, AppView, Outgoing, OutgoingView, Purpose};
use crate::session::{Sending, Trouble};
use crate::text::trimmed;
use vstd::prelude::*;
use vstd::string::*;

verus! {

/// How many messages are taken in at once, so that even a noisy tool cannot starve the keyboard.
pub const BATCH: u32 = 256;

// ---------------------------------------------------------------------------
// The server
// ---------------------------------------------------------------------------

/// What is found when the server's messages are looked at.
pub enum Incoming {
    /// A message.
    Message(Json),
    /// The transport is broken, with the reason.
    Broken(String),
    /// There is no message for now.
    Empty,
    /// There will be no message any more.
    Closed,
}

/// What comes of it.
#[derive(Debug)]
pub enum Taken {
    /// Nothing, and there is nothing more to take.
    Idle,
    /// The message was taken in.
    Done,
    /// The message was taken in, and a line is to be written.
    Send(Outgoing),
    /// The message cannot be dealt with.
    Failed(Trouble),
    /// The server is lost, with whether its process is left to be ended.
    Lost(bool),
}

/// What comes of it, by its contents.
pub enum TakenView {
    Idle,
    Done,
    Send(OutgoingView),
    Failed(Trouble),
    Lost(bool),
}

impl Taken {
    /// What it holds.
    pub open spec fn view(&self) -> TakenView {
        match self {
            Taken::Idle => TakenView::Idle,
            Taken::Done => TakenView::Done,
            Taken::Send(outgoing) => TakenView::Send(outgoing@),
            Taken::Failed(trouble) => TakenView::Failed(*trouble),
            Taken::Lost(running) => TakenView::Lost(*running),
        }
    }
}

/// What was said of a message, as what comes of it.
pub open spec fn taken(sending: Sending) -> TakenView {
    match sending {
        Ok(Some(outgoing)) => TakenView::Send(outgoing),
        Ok(None) => TakenView::Done,
        Err(trouble) => TakenView::Failed(trouble),
    }
}

impl AppView {
    /// After a look at the server's messages.
    pub open spec fn after_incoming(self, incoming: Incoming, stderr: Seq<char>) -> AppView {
        match incoming {
            Incoming::Message(message) => self.after_message(message@),
            Incoming::Broken(reason) => self.cut_off(stderr, reason@),
            Incoming::Empty => self,
            Incoming::Closed => self.cut_off(stderr, "Codex message channel closed."@),
        }
    }

    /// What comes of a look at the server's messages.
    pub open spec fn incoming_result(self, incoming: Incoming, client: ClientView) -> TakenView {
        match incoming {
            Incoming::Message(message) => taken(self.returned(message@, client)),
            Incoming::Broken(reason) => TakenView::Lost(client.running),
            Incoming::Empty => TakenView::Idle,
            Incoming::Closed => TakenView::Lost(client.running),
        }
    }
}

impl App {
    /// Deals with what is found when the server's messages are looked at.
    pub fn receive(&mut self, incoming: Incoming, client: &mut Client, stderr: &str) -> (r: Taken)
        requires
            old(self)@.wf(),
        ensures
            final(self)@ == old(self)@.after_incoming(incoming, stderr@),
            final(self)@.wf(),
            final(client)@ == (if incoming is Broken || incoming is Closed {
                old(client)@.closed()
            } else {
                old(client)@
            }),
            r@ == old(self)@.incoming_result(incoming, old(client)@),
    {
        match incoming {
            Incoming::Message(message) => match self.message(message, client) {
                Ok(Some(outgoing)) => Taken::Send(outgoing),
                Ok(None) => Taken::Done,
                Err(trouble) => Taken::Failed(trouble),
            },
            Incoming::Broken(reason) => Taken::Lost(
                self.disconnected(client, stderr, reason.as_str()),
            ),
            Incoming::Empty => Taken::Idle,
            Incoming::Closed => Taken::Lost(
                self.disconnected(client, stderr, "Codex message channel closed."),
            ),
        }
    }

    /// Goes on without a server to which a line could not be written. The result is whether its
    /// process is left to be ended.
    pub fn write_failed(
        &mut self,
        purpose: Purpose,
        error: &str,
        client: &mut Client,
        stderr: &str,
    ) -> (r: bool)
        requires
            old(self)@.wf(),
        ensures
            final(self)@ == old(self)@.cut_off(stderr@, failure(purpose, error@)),
            final(self)@.wf(),
            final(client)@ == old(client)@.closed(),
            r == old(client)@.running,
    {
        let reason = failure_text(purpose, error);
        self.disconnected(client, stderr, reason.as_str())
    }
}

// ---------------------------------------------------------------------------
// The user
// ---------------------------------------------------------------------------

/// What arrives from the user.
pub enum UserEvent {
    /// Text was pasted.
    Paste(String),
    /// A key was pressed or is being held.
    Press(KeyPress),
    /// A key was released.
    Release(KeyPress),
    /// The screen has changed, or something else has happened.
    Other,
}

impl AppView {
    /// What an event of the user does, with `read` for what the input denotes as JSON.
    pub open spec fn used(
        self,
        event: UserEvent,
        read: Reading,
        connected: bool,
        client: ClientView,
        options: OptionsView,
        logs: Seq<char>,
    ) -> Turned {
        match event {
            UserEvent::Paste(text) => Turned {
                app: self.inserted(text@),
                client,
                result: PressedView::Stay,
            },
            UserEvent::Press(press) => self.pressed(
                press,
                read,
                connected,
                client,
                options,
                logs,
            ),
            _ => Turned { app: self, client, result: PressedView::Stay },
        }
    }
}

impl App {
    /// Deals with an event of the user.
    pub fn user_event(
        &mut self,
        event: UserEvent,
        connected: bool,
        client: &mut Client,
        options: &Options,
        logs: &str,
    ) -> (r: Pressed)
        requires
            old(self)@.wf(),
        ensures
            final(self)@ == old(self)@.used(
                event,
                parsed(trimmed(old(self)@.input)),
                connected,
                old(client)@,
                options@,
                logs@,
            ).app,
            final(client)@ == old(self)@.used(
                event,
                parsed(trimmed(old(self)@.input)),
                connected,
                old(client)@,
                options@,
                logs@,
            ).client,
            r@ == old(self)@.used(
                event,
                parsed(trimmed(old(self)@.input)),
                connected,
                old(client)@,
                options@,
                logs@,
            ).result,
            final(self)@.wf(),
    {
        match event {
            UserEvent::Paste(text) => {
                self.insert(text.as_str());
                Pressed::Stay
            },
            UserEvent::Press(press) => self.press(press, connected, client, options, logs),
            _ => Pressed::Stay,
        }
    }
}

// ---------------------------------------------------------------------------
// Laws
// ---------------------------------------------------------------------------

/// A message of the server is dealt with as such. Where the transport breaks or closes, the session goes on
/// without a server, and says why; while there is no message, nothing changes.
pub proof fn what_arrives_is_dealt_with(
    a: AppView,
    message: Json,
    reason: String,
    client: ClientView,
    stderr: Seq<char>,
)
    ensures
        a.after_incoming(Incoming::Message(message), stderr) == a.after_message(message@),
        match a.returned(message@, client) {
            Ok(Some(outgoing)) => a.incoming_result(Incoming::Message(message), client)
                == TakenView::Send(outgoing),
            Ok(None) => a.incoming_result(Incoming::Message(message), client) == TakenView::Done,
            Err(trouble) => a.incoming_result(Incoming::Message(message), client)
                == TakenView::Failed(trouble),
        },
        a.after_incoming(Incoming::Broken(reason), stderr) == a.cut_off(stderr, reason@),
        a.incoming_result(Incoming::Broken(reason), client) == TakenView::Lost(client.running),
        a.after_incoming(Incoming::Closed, stderr) == a.cut_off(
            stderr,
            "Codex message channel closed."@,
        ),
        a.incoming_result(Incoming::Closed, client) == TakenView::Lost(client.running),
        a.after_incoming(Incoming::Empty, stderr) == a,
        a.incoming_result(Incoming::Empty, client) == TakenView::Idle,
{
}

/// A key does what it does when it is pressed, and nothing when it is released; pasted text is entered, and
/// nothing is submitted by it, whatever is in it.
pub proof fn keys_count_when_pressed(
    a: AppView,
    press: KeyPress,
    text: String,
    read: Reading,
    connected: bool,
    client: ClientView,
    options: OptionsView,
    logs: Seq<char>,
)
    ensures
        ({
            let used = |event: UserEvent| a.used(event, read, connected, client, options, logs);
            let still = Turned { app: a, client, result: PressedView::Stay };
            &&& used(UserEvent::Press(press)) == a.pressed(
                press,
                read,
                connected,
                client,
                options,
                logs,
            )
            &&& used(UserEvent::Release(press)) == still
            &&& used(UserEvent::Other) == still
            &&& used(UserEvent::Paste(text)) == (Turned {
                app: a.inserted(text@),
                client,
                result: PressedView::Stay,
            })
        }),
{
}

} // verus!
