//! A session at the terminal: what the user enters, what the server sends, and what each leads to.
//!
//! Whatever is written to the server is handed out as an [`Outgoing`] line, with what follows once
//! it is written; [`App::delivered`] takes that back.
use crate::backend::{a_message_says_what_is_meant, a_request_says_what_is_asked, carries};
use crate::backend::request_message;
use crate::backend::{frame, notification, refusal, reply_message, Client, ClientView, Fault};
use crate::codec::{compact_text, encoded, exact, parse, parsed, reading, Reading};
use crate::conversation::{error_message, error_text, string, text_or_empty, Conversation};
use crate::conversation::{after_all, completions, resuming_displays_as_live, ConversationView};
use crate::json::{field, json_eq, member, no_members, put, text_of, unsigned_of, views, Json};
use crate::json::{JsonView, NumberView, Object};
use crate::options::{maybe, Options, OptionsView, HELP, VERSION};
use crate::requests::{answer_of_its_own, answer_read, answered, describe, description, escaped};
use crate::requests::{mentions, method_of, only_unknown_methods_are_unsupported};
use crate::requests::{refused_as_unsupported, supported};
use crate::screen::{View, ViewState};
use crate::text::{bytes_of, cut, same, starts_with, strip_all, strip_prefixes, trim, trimmed};
use std::collections::HashMap;
use std::collections::VecDeque;
use vstd::prelude::*;
use vstd::string::*;
use vstd::utf8::*;
use vstd::view::View as _;

verus! {

broadcast use vstd::std_specs::hash::group_hash_axioms;

// ---------------------------------------------------------------------------
// The state of a session
// ---------------------------------------------------------------------------

/// What an open request to the server was about.
#[derive(Clone, Copy, Debug, PartialEq, Eq, Structural)]
pub enum Waiting {
    Initialize,
    Thread,
    Turn,
    Interrupt,
}

/// A session.
pub struct App {
    pub conversation: Conversation,
    pub view: View,
    pub input: String,
    pub cursor: usize,
    pub pending: VecDeque<Json>,
    pub draft: Option<(String, usize)>,
    pub finished_turn: Option<String>,
    pub waiting: HashMap<u64, Waiting>,
    pub thread: Option<String>,
    pub turn: Option<String>,
    pub starting_turn: bool,
    pub status: String,
    pub replay: bool,
}

/// What a session holds. Cursors are byte offsets.
#[verifier::ext_equal]
pub struct AppView {
    pub conversation: ConversationView,
    pub view: ViewState,
    pub input: Seq<char>,
    pub cursor: nat,
    pub pending: Seq<JsonView>,
    pub draft: Option<(Seq<char>, nat)>,
    pub finished_turn: Option<Seq<char>>,
    pub waiting: Map<u64, Waiting>,
    pub thread: Option<Seq<char>>,
    pub turn: Option<Seq<char>>,
    pub starting_turn: bool,
    pub status: Seq<char>,
    pub replay: bool,
}

/// Whether a byte offset lies between two characters of a text, or at one of its ends.
pub open spec fn between(text: Seq<char>, offset: nat) -> bool {
    bytes_of(cut(text, offset)) == offset
}

impl App {
    /// What the session holds.
    pub open spec fn view(&self) -> AppView {
        AppView {
            conversation: self.conversation@,
            view: self.view@,
            input: self.input@,
            cursor: self.cursor as nat,
            pending: views(self.pending@),
            draft: match self.draft {
                Some(draft) => Some((draft.0@, draft.1 as nat)),
                None => None,
            },
            finished_turn: maybe(self.finished_turn),
            waiting: self.waiting@,
            thread: maybe(self.thread),
            turn: maybe(self.turn),
            starting_turn: self.starting_turn,
            status: self.status@,
            replay: self.replay,
        }
    }
}

/// What is said of a request that is not supported.
pub open spec fn unsupported_text(method: Seq<char>) -> Seq<char> {
    "Unsupported request: "@ + method
        + ". It was rejected. Update codex-silent or resume this thread in Codex."@
}

impl AppView {
    /// Cursors lie between characters, and the parts are sound.
    pub open spec fn wf(self) -> bool {
        &&& self.conversation.wf()
        &&& between(self.input, self.cursor)
        &&& match self.draft {
            Some((text, cursor)) => between(text, cursor),
            None => true,
        }
        &&& self.view.height <= u16::MAX
    }

    /// Whether a turn is running or about to.
    pub open spec fn busy(self) -> bool {
        self.starting_turn || self.turn is Some
    }

    /// With one more notice.
    pub open spec fn noticed(self, text: Seq<char>) -> AppView {
        AppView { conversation: self.conversation.noticed(text), ..self }
    }

    /// With nothing entered.
    pub open spec fn cleared(self) -> AppView {
        AppView { input: Seq::empty(), cursor: 0, ..self }
    }

    /// With another status.
    pub open spec fn with_status(self, status: Seq<char>) -> AppView {
        AppView { status, ..self }
    }

    /// Staying with the last rows of the conversation.
    pub open spec fn at_end(self) -> AppView {
        AppView { view: self.view.at_end(), ..self }
    }

    /// A request, with what the user decides on where that is known.
    pub open spec fn enriched(self, message: JsonView) -> JsonView {
        let params = field(message, "params"@);
        match self.conversation.details_of(
            text_or_empty(field(params, "turnId"@)),
            text_or_empty(field(params, "itemId"@)),
        ) {
            Some(details) => put(
                message,
                "params"@,
                put(params, "itemDetails"@, JsonView::Text(details)),
            ),
            None => message,
        }
    }

    /// Whether a message belongs to the open thread, as far as both are known.
    pub open spec fn concerned_by(self, message: JsonView) -> bool {
        match (self.thread, text_of(field(field(message, "params"@), "threadId"@))) {
            (Some(current), Some(other)) => current == other,
            _ => true,
        }
    }

    /// With the request at the front of the queue presented, or, where none is left, with what the
    /// user had begun to write.
    pub open spec fn presented(self) -> AppView {
        if self.pending.len() > 0 {
            self.cleared().noticed(escaped(description(self.pending[0]))).at_end().with_status(
                "Your response is required"@,
            )
        } else {
            let restored = match self.draft {
                Some((text, cursor)) => AppView { input: text, cursor, draft: None, ..self },
                None => self.cleared(),
            };
            restored.with_status(
                if self.busy() {
                    "Working"@
                } else {
                    "Ready"@
                },
            )
        }
    }

    /// After a message from a log.
    pub open spec fn replayed(self, message: JsonView) -> AppView {
        let thread = field(field(message, "result"@), "thread"@);
        let method = text_or_empty(field(message, "method"@));
        match text_of(field(thread, "id"@)) {
            Some(id) => AppView {
                thread: Some(id),
                conversation: self.conversation.restored(thread),
                ..self
            },
            None => if member(message, "method"@) is Some && member(message, "id"@) is Some {
                if supported(method) {
                    self.noticed(escaped(description(self.enriched(message))))
                } else {
                    self.noticed(unsupported_text(method))
                }
            } else if self.concerned_by(message) {
                AppView { conversation: self.conversation.after(message), ..self }
            } else {
                self
            },
        }
    }
}

/// Whether a client can answer requests with a method.
pub fn supported_request(method: &str) -> (r: bool)
    ensures
        r == supported(method@),
{
    same(method, "item/commandExecution/requestApproval") || same(
        method,
        "item/fileChange/requestApproval",
    ) || same(method, "item/permissions/requestApproval") || same(
        method,
        "item/tool/requestUserInput",
    ) || same(method, "mcpServer/elicitation/request")
}

/// What is said of a request that is not supported.
fn unsupported(method: &str) -> (r: String)
    ensures
        r@ == unsupported_text(method@),
{
    let mut text = "Unsupported request: ".to_owned();
    text.append(method);
    text.append(". It was rejected. Update codex-silent or resume this thread in Codex.");
    text
}

impl App {
    /// A session that has just begun.
    pub fn new(show: bool, replay: bool) -> (r: App)
        ensures
            r@ == new_session(show, replay),
            r@.wf(),
    {
        let mut view = View::default();
        view.expanded = show;
        let status = if replay {
            "Replay".to_owned()
        } else {
            "Connecting".to_owned()
        };
        let r = App {
            conversation: Conversation::default(),
            view,
            input: String::new(),
            cursor: 0,
            pending: VecDeque::new(),
            draft: None,
            finished_turn: None,
            waiting: HashMap::new(),
            thread: None,
            turn: None,
            starting_turn: false,
            status,
            replay,
        };
        assert(r@ =~= new_session(show, replay));
        r
    }

    /// Whether a turn is running or about to.
    pub fn busy(&self) -> (r: bool)
        ensures
            r == self@.busy(),
    {
        self.starting_turn || self.turn.is_some()
    }

    /// Adds to a request what the user decides on, where that is known.
    pub fn enrich_request(&self, message: Json) -> (r: Json)
        requires
            self@.wf(),
        ensures
            r@ == self@.enriched(message@),
    {
        let params = message.at("params");
        let details = match self.conversation.details(
            string(params.at("turnId")),
            string(params.at("itemId")),
        ) {
            Some(details) => Json::text(details),
            None => {
                return message;
            },
        };
        let params = params.clone().with("itemDetails", details);
        message.with("params", params)
    }

    /// Whether a message belongs to the open thread, as far as both are known.
    pub fn current_thread_event(&self, message: &Json) -> (r: bool)
        ensures
            r == self@.concerned_by(message@),
    {
        match &self.thread {
            Some(current) => match message.at("params").at("threadId").as_str() {
                Some(other) => same(current.as_str(), other),
                None => true,
            },
            None => true,
        }
    }

    /// Takes in a message from a log.
    pub fn replay_message(&mut self, message: Json)
        requires
            old(self)@.wf(),
        ensures
            final(self)@ == old(self)@.replayed(message@),
            final(self)@.wf(),
    {
        let thread = message.at("result").at("thread");
        if let Some(id) = thread.at("id").as_str() {
            self.thread = Some(id.to_owned());
            self.conversation.restore(thread);
        } else if message.get("method").is_some() && message.get("id").is_some() {
            let method = string(message.at("method"));
            if supported_request(method) {
                let text = describe(&self.enrich_request(message));
                self.conversation.notice(text.as_str());
            } else {
                self.conversation.notice(unsupported(method).as_str());
            }
        } else if self.current_thread_event(&message) {
            self.conversation.event(&message);
        }
    }

    /// Takes in a line of a log. A message that was logged is taken in as it was.
    pub fn replay_line(&mut self, line: &str) -> (r: Result<(), String>)
        requires
            old(self)@.wf(),
        ensures
            final(self)@.wf(),
            match parsed(line@) {
                Ok(message) => r is Ok && final(self)@ == old(self)@.replayed(message),
                Err(error) => final(self)@ == old(self)@ && r is Err && r->Err_0@ == error,
            },
            forall|v: JsonView|
                exact(v, 127) && encode_utf8(line@) == #[trigger] encoded(v) ==> r is Ok
                    && final(self)@ == old(self)@.replayed(v),
    {
        match parse(line) {
            Ok(message) => {
                self.replay_message(message);
                Ok(())
            },
            Err(error) => Err(error),
        }
    }

    /// Presents the request at the front of the queue, or restores what the user had begun to
    /// write.
    pub fn present_request(&mut self)
        requires
            old(self)@.wf(),
        ensures
            final(self)@ == old(self)@.presented(),
            final(self)@.wf(),
    {
        self.input = String::new();
        self.cursor = 0;
        proof {
            lemma_empty_between();
        }
        if self.pending.len() > 0 {
            let text = describe(&self.pending[0]);
            self.conversation.notice(text.as_str());
            self.view.end();
            self.status = "Your response is required".to_owned();
        } else {
            let mut draft: Option<(String, usize)> = None;
            core::mem::swap(&mut draft, &mut self.draft);
            if let Some((text, cursor)) = draft {
                self.input = text;
                self.cursor = cursor;
            }
            self.status = if self.busy() {
                "Working".to_owned()
            } else {
                "Ready".to_owned()
            };
        }
        assert(self@ =~= old(self)@.presented());
    }
}

/// A session that has just begun.
pub open spec fn new_session(show: bool, replay: bool) -> AppView {
    AppView {
        conversation: ConversationView {
            entries: Seq::empty(),
            index: Map::empty(),
            revision: 0,
        },
        view: ViewState {
            expanded: show,
            anchor: None,
            rows: Seq::empty(),
            cache: None,
            height: 0,
        },
        input: Seq::empty(),
        cursor: 0,
        pending: Seq::empty(),
        draft: None,
        finished_turn: None,
        waiting: Map::empty(),
        thread: None,
        turn: None,
        starting_turn: false,
        status: if replay {
            "Replay"@
        } else {
            "Connecting"@
        },
        replay,
    }
}

proof fn lemma_empty_between()
    ensures
        between(Seq::empty(), 0),
{
}

// ---------------------------------------------------------------------------
// Lines to the server
// ---------------------------------------------------------------------------

/// What a thread is opened for.
#[derive(Clone, Copy, Debug, PartialEq, Eq, Structural)]
pub enum Origin {
    Startup,
    New,
    Resume,
}

/// What follows once a line is written.
#[derive(Debug)]
pub enum Then {
    /// A request with this method was refused.
    Rejected(String),
    /// The server was told that this client is ready.
    Initialized,
    /// A thread was asked for.
    Opening(u64, Origin),
    /// A turn was asked for.
    Turn(u64),
    /// The request at the front of the queue was answered.
    Answered,
    /// An interruption was asked for.
    Interrupting(u64),
}

/// What follows once a line is written, by its contents.
pub enum ThenView {
    Rejected(Seq<char>),
    Initialized,
    Opening(u64, Origin),
    Turn(u64),
    Answered,
    Interrupting(u64),
}

impl Then {
    /// What it holds.
    pub open spec fn view(&self) -> ThenView {
        match self {
            Then::Rejected(method) => ThenView::Rejected(method@),
            Then::Initialized => ThenView::Initialized,
            Then::Opening(id, origin) => ThenView::Opening(*id, *origin),
            Then::Turn(id) => ThenView::Turn(*id),
            Then::Answered => ThenView::Answered,
            Then::Interrupting(id) => ThenView::Interrupting(*id),
        }
    }
}

/// A line to be written to the server, and what follows.
#[derive(Debug)]
pub struct Outgoing {
    pub frame: Vec<u8>,
    pub after: Then,
}

/// A line to be written to the server, and what follows, by its contents.
pub struct OutgoingView {
    pub frame: Seq<u8>,
    pub after: ThenView,
}

impl Outgoing {
    /// What it holds.
    pub open spec fn view(&self) -> OutgoingView {
        OutgoingView { frame: self.frame@, after: self.after@ }
    }
}

/// Why a message cannot be dealt with.
#[derive(Clone, Copy, Debug, PartialEq, Eq, Structural)]
pub enum Trouble {
    Transport(Fault),
    NoThread,
}

impl Trouble {
    /// What is said of it.
    pub fn text(&self) -> (r: &'static str)
        ensures
            r@ == (match *self {
                Trouble::Transport(fault) => crate::backend::fault_text(fault),
                Trouble::NoThread => "Codex returned a thread without an id"@,
            }),
    {
        match self {
            Trouble::Transport(fault) => fault.text(),
            Trouble::NoThread => "Codex returned a thread without an id",
        }
    }
}

/// The line that is to be written next, if any.
pub type Sending = Result<Option<OutgoingView>, Trouble>;

/// What the line to be written next holds.
pub open spec fn sending_view(r: Result<Option<Outgoing>, Trouble>) -> Sending {
    match r {
        Ok(Some(outgoing)) => Ok(Some(outgoing@)),
        Ok(None) => Ok(None),
        Err(trouble) => Err(trouble),
    }
}

/// A line that is handed out, unless nothing can be written any more.
pub open spec fn sending(written: Result<Seq<u8>, Fault>, after: ThenView) -> Sending {
    match written {
        Ok(frame) => Ok(Some(OutgoingView { frame, after })),
        Err(fault) => Err(Trouble::Transport(fault)),
    }
}

/// The members of a request for a thread.
pub open spec fn thread_params(options: OptionsView, resume: Option<Seq<char>>) -> JsonView {
    let base = no_members().insert("cwd"@, JsonView::Text(options.cwd));
    let with_model = match options.model {
        Some(model) => base.insert("model"@, JsonView::Text(model)),
        None => base,
    };
    JsonView::Object(
        match resume {
            Some(thread) => with_model.insert("threadId"@, JsonView::Text(thread)),
            None => with_model,
        },
    )
}

/// The request for a thread.
pub open spec fn opening(
    client: ClientView,
    options: OptionsView,
    resume: Option<Seq<char>>,
    origin: Origin,
) -> Result<OutgoingView, Fault> {
    let method = if resume is Some {
        "thread/resume"@
    } else {
        "thread/start"@
    };
    match client.requested(method, thread_params(options, resume)) {
        Ok(sent) => Ok(
            OutgoingView { frame: sent.1, after: ThenView::Opening(sent.0, origin) },
        ),
        Err(fault) => Err(fault),
    }
}

/// What a handed out line holds, or the fault.
pub open spec fn outgoing_view(r: Result<Outgoing, Fault>) -> Result<OutgoingView, Fault> {
    match r {
        Ok(outgoing) => Ok(outgoing@),
        Err(fault) => Err(fault),
    }
}

/// Asks for a thread: a new one, or one to resume.
pub fn open_thread(
    client: &mut Client,
    options: &Options,
    resume: Option<&str>,
    origin: Origin,
) -> (r: Result<Outgoing, Fault>)
    ensures
        final(client)@ == old(client)@.after_request(),
        outgoing_view(r) == opening(
            old(client)@,
            options@,
            (match resume {
                Some(thread) => Some(thread@),
                None => None,
            }),
            origin,
        ),
{
    let mut params = Object::new().with("cwd", Json::text(options.cwd.as_str()));
    if let Some(model) = &options.model {
        params = params.with("model", Json::text(model.as_str()));
    }
    let method = if resume.is_some() {
        "thread/resume"
    } else {
        "thread/start"
    };
    if let Some(thread) = resume {
        params = params.with("threadId", Json::text(thread));
    }
    match client.request(method, Json::Object(params)) {
        Ok((id, frame)) => Ok(Outgoing { frame, after: Then::Opening(id, origin) }),
        Err(fault) => Err(fault),
    }
}

// ---------------------------------------------------------------------------
// Messages from the server
// ---------------------------------------------------------------------------

impl AppView {
    /// With a request of the server in the queue. What the user was writing is kept for later.
    pub open spec fn queued(self, message: JsonView) -> AppView {
        let request = self.enriched(message);
        if self.pending.len() == 0 {
            AppView {
                draft: Some((self.input, self.cursor)),
                pending: self.pending.push(request),
                ..self
            }.presented()
        } else {
            AppView { pending: self.pending.push(request), ..self }
        }
    }

    /// After the reply to a request of this client.
    pub open spec fn after_reply(self, message: JsonView, id: u64) -> AppView {
        let known = self.waiting.dom().contains(id);
        let waiting = self.waiting[id];
        let s = AppView { waiting: self.waiting.remove(id), ..self };
        let thread = field(field(message, "result"@), "thread"@);
        let turn = field(field(message, "result"@), "turn"@);
        match member(message, "error"@) {
            Some(error) => AppView {
                starting_turn: if known && waiting == Waiting::Turn {
                    false
                } else {
                    s.starting_turn
                },
                ..s.noticed(error_message(error)).with_status("Request failed"@)
            },
            None => if !known {
                s
            } else {
                match waiting {
                    Waiting::Thread => if text_or_empty(field(thread, "id"@)).len() == 0 {
                        s
                    } else {
                        AppView {
                            thread: Some(text_or_empty(field(thread, "id"@))),
                            conversation: s.conversation.restored(thread),
                            status: "Ready"@,
                            ..s
                        }
                    },
                    Waiting::Turn => AppView {
                        starting_turn: false,
                        turn: if field(turn, "status"@) == JsonView::Text("inProgress"@)
                            && s.finished_turn != text_of(field(turn, "id"@)) {
                            Some(text_or_empty(field(turn, "id"@)))
                        } else {
                            s.turn
                        },
                        ..s
                    },
                    _ => s,
                }
            },
        }
    }

    /// After the completion of a turn: requests that are still open are void.
    pub open spec fn after_turn(self, turn: JsonView) -> AppView {
        let s = AppView {
            finished_turn: text_of(field(turn, "id"@)),
            turn: None,
            starting_turn: false,
            ..self
        };
        let settled = if s.pending.len() > 0 {
            AppView { pending: Seq::empty(), ..s }.presented()
        } else {
            s
        };
        let done = settled.with_status(text_or_empty(field(turn, "status"@)));
        if field(turn, "error"@) is Null {
            done
        } else {
            done.noticed(error_message(field(turn, "error"@)))
        }
    }

    /// The requests that are still open once one is resolved.
    pub open spec fn unresolved(self, id: JsonView) -> Seq<JsonView> {
        self.pending.filter(|request: JsonView| !json_eq(field(request, "id"@), id))
    }

    /// After a request was resolved elsewhere.
    pub open spec fn after_resolution(self, id: JsonView) -> AppView {
        let s = AppView { pending: self.unresolved(id), ..self };
        if self.pending.len() > 0 && json_eq(field(self.pending[0], "id"@), id) {
            s.presented()
        } else {
            s
        }
    }

    /// After an event of the server.
    pub open spec fn after_event(self, message: JsonView) -> AppView {
        let method = text_or_empty(field(message, "method"@));
        let params = field(message, "params"@);
        let s = AppView { conversation: self.conversation.after(message), ..self };
        if !self.concerned_by(message) {
            self
        } else if method == "turn/started"@ {
            AppView {
                turn: Some(text_or_empty(field(field(params, "turn"@), "id"@))),
                starting_turn: false,
                status: "Working · Ctrl+C interrupt"@,
                ..s
            }
        } else if method == "turn/completed"@ {
            s.after_turn(field(params, "turn"@))
        } else if method == "serverRequest/resolved"@ {
            s.after_resolution(field(params, "requestId"@))
        } else {
            s
        }
    }

    /// After a message of the server, before anything is written in return.
    pub open spec fn after_message(self, message: JsonView) -> AppView {
        if member(message, "method"@) is Some && member(message, "id"@) is Some {
            if supported(text_or_empty(field(message, "method"@))) {
                self.queued(message)
            } else {
                self
            }
        } else {
            match unsigned_of(field(message, "id"@)) {
                Some(id) => self.after_reply(message, id),
                None => self.after_event(message),
            }
        }
    }

    /// What is written in return for a message of the server.
    pub open spec fn returned(self, message: JsonView, client: ClientView) -> Sending {
        let method = text_or_empty(field(message, "method"@));
        if member(message, "method"@) is Some && member(message, "id"@) is Some {
            if supported(method) {
                Ok(None)
            } else {
                sending(
                    client.written(
                        refusal(
                            field(message, "id"@),
                            "Request is not supported by this version of codex-silent"@,
                        ),
                    ),
                    ThenView::Rejected(method),
                )
            }
        } else {
            match unsigned_of(field(message, "id"@)) {
                Some(id) => if member(message, "error"@) is Some || !self.waiting.dom().contains(
                    id,
                ) {
                    Ok(None)
                } else if self.waiting[id] == Waiting::Initialize {
                    sending(
                        client.written(
                            notification("initialized"@, JsonView::Object(no_members())),
                        ),
                        ThenView::Initialized,
                    )
                } else if self.waiting[id] == Waiting::Thread && text_or_empty(
                    field(field(field(message, "result"@), "thread"@), "id"@),
                ).len() == 0 {
                    Err(Trouble::NoThread)
                } else {
                    Ok(None)
                },
                None => Ok(None),
            }
        }
    }
}

proof fn lemma_filter_take(
    pending: Seq<JsonView>,
    keep: spec_fn(JsonView) -> bool,
    i: int,
)
    requires
        0 <= i < pending.len(),
    ensures
        pending.take(i + 1).filter(keep) == if keep(pending[i]) {
            pending.take(i).filter(keep).push(pending[i])
        } else {
            pending.take(i).filter(keep)
        },
{
    reveal(Seq::filter);
    assert(pending.take(i + 1).drop_last() =~= pending.take(i));
}

impl App {
    /// Puts a request of the server into the queue.
    fn queue_request(&mut self, message: Json)
        requires
            old(self)@.wf(),
        ensures
            final(self)@ == old(self)@.queued(message@),
            final(self)@.wf(),
    {
        let request = self.enrich_request(message);
        let ghost asked = request@;
        if self.pending.len() == 0 {
            let mut input = String::new();
            core::mem::swap(&mut input, &mut self.input);
            self.draft = Some((input, self.cursor));
            self.cursor = 0;
            proof {
                lemma_empty_between();
            }
            self.pending.push_back(request);
            assert(views(self.pending@) =~= old(self)@.pending.push(asked));
            self.present_request();
            assert(self@ =~= old(self)@.queued(message@));
        } else {
            self.pending.push_back(request);
            assert(views(self.pending@) =~= old(self)@.pending.push(asked));
        }
    }

    /// Takes in the reply to a request of this client.
    fn take_reply(&mut self, message: &Json, id: u64, client: &mut Client) -> (r: Result<
        Option<Outgoing>,
        Trouble,
    >)
        requires
            old(self)@.wf(),
            unsigned_of(field(message@, "id"@)) == Some(id),
            !(member(message@, "method"@) is Some && member(message@, "id"@) is Some),
        ensures
            final(self)@ == old(self)@.after_reply(message@, id),
            final(self)@.wf(),
            final(client)@ == old(client)@,
            sending_view(r) == old(self)@.returned(message@, old(client)@),
    {
        let waiting = self.waiting.remove(&id);
        assert(self.waiting@ =~= old(self)@.waiting.remove(id));
        if let Some(error) = message.get("error") {
            self.conversation.notice(error_text(error).as_str());
            self.status = "Request failed".to_owned();
            if let Some(Waiting::Turn) = waiting {
                self.starting_turn = false;
            }
            return Ok(None);
        }
        match waiting {
            Some(Waiting::Initialize) => {
                // The server accepts requests after initialize. The notification acknowledges it.
                match client.notify("initialized", Json::Object(Object::new())) {
                    Ok(frame) => Ok(Some(Outgoing { frame, after: Then::Initialized })),
                    Err(fault) => Err(Trouble::Transport(fault)),
                }
            },
            Some(Waiting::Thread) => {
                let thread = message.at("result").at("thread");
                let id = string(thread.at("id"));
                if id.is_empty() {
                    return Err(Trouble::NoThread);
                }
                self.thread = Some(id.to_owned());
                self.conversation.restore(thread);
                self.status = "Ready".to_owned();
                Ok(None)
            },
            Some(Waiting::Turn) => {
                self.starting_turn = false;
                let turn = message.at("result").at("turn");
                if turn.at("status").is_text("inProgress") && !self.has_finished(turn.at("id")) {
                    self.turn = Some(string(turn.at("id")).to_owned());
                }
                Ok(None)
            },
            _ => Ok(None),
        }
    }

    /// Whether the turn with an ID is the one that was completed last.
    fn has_finished(&self, id: &Json) -> (r: bool)
        ensures
            r == (self@.finished_turn == text_of(id@)),
    {
        match (&self.finished_turn, id.as_str()) {
            (Some(finished), Some(id)) => same(finished.as_str(), id),
            (None, None) => true,
            _ => false,
        }
    }

    /// Takes in the completion of a turn.
    fn complete_turn(&mut self, turn: &Json)
        requires
            old(self)@.wf(),
        ensures
            final(self)@ == old(self)@.after_turn(turn@),
            final(self)@.wf(),
    {
        self.finished_turn = match turn.at("id").as_str() {
            Some(id) => Some(id.to_owned()),
            None => None,
        };
        self.turn = None;
        self.starting_turn = false;
        if self.pending.len() > 0 {
            self.pending.clear();
            assert(views(self.pending@) =~= Seq::empty());
            self.present_request();
        }
        self.status = string(turn.at("status")).to_owned();
        if !turn.at("error").is_null() {
            self.conversation.notice(error_text(turn.at("error")).as_str());
        }
        assert(self@ =~= old(self)@.after_turn(turn@));
    }

    /// Takes a request that was resolved elsewhere out of the queue.
    fn resolve(&mut self, id: &Json)
        requires
            old(self)@.wf(),
        ensures
            final(self)@ == old(self)@.after_resolution(id@),
            final(self)@.wf(),
    {
        let front_resolved = self.pending.len() > 0 && self.pending[0].at("id").same(id);
        let ghost keep = |request: JsonView| !json_eq(field(request, "id"@), id@);
        let ghost all = views(self.pending@);
        let mut kept: VecDeque<Json> = VecDeque::new();
        proof {
            reveal(Seq::filter);
            assert(all.take(0) =~= Seq::empty());
            assert(views(kept@) =~= Seq::empty());
        }
        for i in 0..self.pending.len()
            invariant
                *self == *old(self),
                all == views(self.pending@),
                keep == (|request: JsonView| !json_eq(field(request, "id"@), id@)),
                views(kept@) == all.take(i as int).filter(keep),
        {
            proof {
                lemma_filter_take(all, keep, i as int);
                assert(all[i as int] == self.pending@[i as int]@);
            }
            if !self.pending[i].at("id").same(id) {
                let ghost before = views(kept@);
                kept.push_back(self.pending[i].clone());
                assert(views(kept@) =~= before.push(all[i as int]));
            }
        }
        assert(all.take(all.len() as int) =~= all);
        self.pending = kept;
        if front_resolved {
            self.present_request();
        }
    }

    /// Takes in an event of the server.
    fn take_event(&mut self, message: &Json)
        requires
            old(self)@.wf(),
        ensures
            final(self)@ == old(self)@.after_event(message@),
            final(self)@.wf(),
    {
        // Ignore events belonging to another thread, e.g. detached subagents.
        if !self.current_thread_event(message) {
            return;
        }
        self.conversation.event(message);
        let params = message.at("params");
        let method = string(message.at("method"));
        if same(method, "turn/started") {
            self.turn = Some(string(params.at("turn").at("id")).to_owned());
            self.starting_turn = false;
            self.status = "Working · Ctrl+C interrupt".to_owned();
        } else if same(method, "turn/completed") {
            self.complete_turn(params.at("turn"));
        } else if same(method, "serverRequest/resolved") {
            self.resolve(params.at("requestId"));
        }
    }

    /// Takes in a message of the server, and hands out what is written in return.
    pub fn message(&mut self, message: Json, client: &mut Client) -> (r: Result<
        Option<Outgoing>,
        Trouble,
    >)
        requires
            old(self)@.wf(),
        ensures
            final(self)@ == old(self)@.after_message(message@),
            final(self)@.wf(),
            final(client)@ == old(client)@,
            sending_view(r) == old(self)@.returned(message@, old(client)@),
    {
        if message.get("method").is_some() && message.get("id").is_some() {
            let method = string(message.at("method"));
            if supported_request(method) {
                self.queue_request(message);
                return Ok(None);
            }
            return match client.reply_error(
                message.at("id").clone(),
                "Request is not supported by this version of codex-silent",
            ) {
                Ok(frame) => Ok(
                    Some(Outgoing { frame, after: Then::Rejected(method.to_owned()) }),
                ),
                Err(fault) => Err(Trouble::Transport(fault)),
            };
        }
        match message.at("id").as_u64() {
            Some(id) => self.take_reply(&message, id, client),
            None => {
                self.take_event(&message);
                Ok(None)
            },
        }
    }
}

// ---------------------------------------------------------------------------
// After a line is written
// ---------------------------------------------------------------------------

impl AppView {
    /// Once a line is written.
    pub open spec fn after_delivery(self, after: ThenView) -> AppView {
        match after {
            ThenView::Rejected(method) => self.noticed(unsupported_text(method)),
            ThenView::Initialized => self,
            ThenView::Opening(id, origin) => {
                let s = AppView {
                    waiting: self.waiting.insert(id, Waiting::Thread),
                    thread: None,
                    status: "Opening conversation"@,
                    ..self
                };
                match origin {
                    Origin::Startup => s,
                    Origin::New => s.noticed(
                        "Starting a new conversation. Earlier answers remain visible here."@,
                    ).cleared(),
                    Origin::Resume => s.cleared(),
                }
            },
            ThenView::Turn(id) => AppView {
                waiting: self.waiting.insert(id, Waiting::Turn),
                starting_turn: true,
                status: "Working · Ctrl+C interrupt"@,
                ..self.at_end().cleared()
            },
            ThenView::Answered => AppView {
                pending: if self.pending.len() > 0 {
                    self.pending.skip(1)
                } else {
                    self.pending
                },
                ..self.noticed("Response sent."@)
            }.presented(),
            ThenView::Interrupting(id) => AppView {
                waiting: self.waiting.insert(id, Waiting::Interrupt),
                status: "Interrupting"@,
                ..self
            },
        }
    }
}

/// What is written once a line is written: a client that is ready asks for a thread.
pub open spec fn following(after: ThenView, client: ClientView, options: OptionsView) -> Result<
    Option<OutgoingView>,
    Fault,
> {
    match after {
        ThenView::Initialized => match opening(client, options, options.resume, Origin::Startup) {
            Ok(outgoing) => Ok(Some(outgoing)),
            Err(fault) => Err(fault),
        },
        _ => Ok(None),
    }
}

/// What a line holds that is written next, if any.
pub open spec fn following_view(r: Result<Option<Outgoing>, Fault>) -> Result<
    Option<OutgoingView>,
    Fault,
> {
    match r {
        Ok(Some(outgoing)) => Ok(Some(outgoing@)),
        Ok(None) => Ok(None),
        Err(fault) => Err(fault),
    }
}

impl App {
    /// Forgets what was entered.
    fn clear(&mut self)
        requires
            old(self)@.wf(),
        ensures
            final(self)@ == old(self)@.cleared(),
            final(self)@.wf(),
    {
        self.input = String::new();
        self.cursor = 0;
        proof {
            lemma_empty_between();
        }
        assert(self@ =~= old(self)@.cleared());
    }

    /// Does what follows once a line is written, and hands out the line that comes next.
    pub fn delivered(&mut self, after: Then, client: &mut Client, options: &Options) -> (r: Result<
        Option<Outgoing>,
        Fault,
    >)
        requires
            old(self)@.wf(),
        ensures
            final(self)@ == old(self)@.after_delivery(after@),
            final(self)@.wf(),
            final(client)@ == (if after@ is Initialized {
                old(client)@.after_request()
            } else {
                old(client)@
            }),
            following_view(r) == following(after@, old(client)@, options@),
    {
        match after {
            Then::Rejected(method) => {
                self.conversation.notice(unsupported(method.as_str()).as_str());
                Ok(None)
            },
            Then::Initialized => {
                let resume = match &options.resume {
                    Some(thread) => Some(thread.as_str()),
                    None => None,
                };
                match open_thread(client, options, resume, Origin::Startup) {
                    Ok(outgoing) => Ok(Some(outgoing)),
                    Err(fault) => Err(fault),
                }
            },
            Then::Opening(id, origin) => {
                self.waiting.insert(id, Waiting::Thread);
                self.thread = None;
                self.status = "Opening conversation".to_owned();
                match origin {
                    Origin::Startup => {},
                    Origin::New => {
                        self.conversation.notice(
                            "Starting a new conversation. Earlier answers remain visible here.",
                        );
                        self.clear();
                    },
                    Origin::Resume => {
                        self.clear();
                    },
                }
                Ok(None)
            },
            Then::Turn(id) => {
                self.waiting.insert(id, Waiting::Turn);
                self.starting_turn = true;
                self.status = "Working · Ctrl+C interrupt".to_owned();
                self.view.end();
                self.clear();
                Ok(None)
            },
            Then::Answered => {
                let ghost before = self@.pending;
                let _ = self.pending.pop_front();
                assert(before.len() > 0 ==> views(self.pending@) =~= before.skip(1));
                assert(before.len() == 0 ==> views(self.pending@) =~= before);
                self.conversation.notice("Response sent.");
                self.present_request();
                Ok(None)
            },
            Then::Interrupting(id) => {
                self.waiting.insert(id, Waiting::Interrupt);
                self.status = "Interrupting".to_owned();
                Ok(None)
            },
        }
    }
}

// ---------------------------------------------------------------------------
// What the user submits
// ---------------------------------------------------------------------------

/// What submitted input asks for.
pub enum Step {
    Nothing,
    Show,
    Hide,
    Toggle,
    Logs,
    Help,
    Quit,
    ReadOnly,
    /// An answer to the request at the front of the queue.
    Reply(Json),
    /// Input that is no answer to that request, with the reason.
    Mistake(String),
    New,
    Resume(String),
    Unknown,
    Busy,
    Connecting,
    /// A message that starts a turn.
    Turn(String),
}

/// What submitted input asks for, by its contents.
pub enum StepView {
    Nothing,
    Show,
    Hide,
    Toggle,
    Logs,
    Help,
    Quit,
    ReadOnly,
    Reply(JsonView),
    Mistake(Seq<char>),
    New,
    Resume(Seq<char>),
    Unknown,
    Busy,
    Connecting,
    Turn(Seq<char>),
}

impl Step {
    /// What it holds.
    pub open spec fn view(&self) -> StepView {
        match self {
            Step::Nothing => StepView::Nothing,
            Step::Show => StepView::Show,
            Step::Hide => StepView::Hide,
            Step::Toggle => StepView::Toggle,
            Step::Logs => StepView::Logs,
            Step::Help => StepView::Help,
            Step::Quit => StepView::Quit,
            Step::ReadOnly => StepView::ReadOnly,
            Step::Reply(result) => StepView::Reply(result@),
            Step::Mistake(reason) => StepView::Mistake(reason@),
            Step::New => StepView::New,
            Step::Resume(thread) => StepView::Resume(thread@),
            Step::Unknown => StepView::Unknown,
            Step::Busy => StepView::Busy,
            Step::Connecting => StepView::Connecting,
            Step::Turn(text) => StepView::Turn(text@),
        }
    }
}

impl AppView {
    /// What the input asks for, of which `read` is what it denotes as JSON.
    pub open spec fn step(self, read: Reading) -> StepView {
        let input = trimmed(self.input);
        if input.len() == 0 {
            StepView::Nothing
        } else if input == "/show"@ {
            StepView::Show
        } else if input == "/hide"@ {
            StepView::Hide
        } else if input == "/toggle"@ {
            StepView::Toggle
        } else if input == "/logs"@ {
            StepView::Logs
        } else if input == "/help"@ {
            StepView::Help
        } else if input == "/quit"@ || input == "/exit"@ {
            StepView::Quit
        } else if self.replay {
            StepView::ReadOnly
        } else if self.pending.len() > 0 {
            match answered(self.pending[0], input, read) {
                Ok(result) => StepView::Reply(result),
                Err(reason) => StepView::Mistake(reason),
            }
        } else if input == "/new"@ && !self.busy() {
            StepView::New
        } else if "/resume "@.is_prefix_of(input) && !self.busy() {
            StepView::Resume(trimmed(strip_all(input, "/resume "@)))
        } else if "/"@.is_prefix_of(input) {
            StepView::Unknown
        } else if self.busy() {
            StepView::Busy
        } else if self.thread is None {
            StepView::Connecting
        } else {
            StepView::Turn(input)
        }
    }

    /// After submitted input, before anything is written.
    pub open spec fn after_step(self, step: StepView, logs: Seq<char>) -> AppView {
        match step {
            StepView::Show => AppView {
                view: ViewState { expanded: true, ..self.view },
                ..self
            }.cleared(),
            StepView::Hide => AppView {
                view: ViewState { expanded: false, ..self.view },
                ..self
            }.cleared(),
            StepView::Toggle => AppView { view: self.view.toggled(), ..self }.cleared(),
            StepView::Logs => self.noticed("Session logs: "@ + logs).cleared(),
            StepView::Help => self.noticed(HELP@).cleared(),
            StepView::ReadOnly => self.noticed(
                "Replay is read-only. Use /show, /hide, or /quit."@,
            ).cleared(),
            StepView::Mistake(reason) => self.noticed(reason),
            StepView::Unknown => self.noticed(
                "Unknown or unavailable command. Use /help. Interrupt an active turn before /new or /resume."@,
            ).cleared(),
            StepView::Busy => self.noticed(
                "A turn is running. Ctrl+C interrupts it; your next message stays in the input box."@,
            ),
            StepView::Connecting => self.noticed(
                "Still connecting to Codex. Your message stays in the input box."@,
            ),
            _ => self,
        }
    }

    /// The members of a request for a turn.
    pub open spec fn turn_params(self, input: Seq<char>) -> JsonView {
        JsonView::Object(
            no_members().insert(
                "threadId"@,
                match self.thread {
                    Some(thread) => JsonView::Text(thread),
                    None => JsonView::Null,
                },
            ).insert(
                "input"@,
                JsonView::Array(
                    seq![
                        JsonView::Object(
                            no_members().insert("type"@, JsonView::Text("text"@)).insert(
                                "text"@,
                                JsonView::Text(input),
                            ),
                        ),
                    ],
                ),
            ),
        )
    }

    /// What is written for submitted input.
    pub open spec fn submission(
        self,
        step: StepView,
        client: ClientView,
        options: OptionsView,
    ) -> Result<SubmissionView, Fault> {
        match step {
            StepView::Quit => Ok(SubmissionView::Quit),
            StepView::Reply(result) => match client.written(
                reply_message(field(self.pending[0], "id"@), result),
            ) {
                Ok(frame) => Ok(
                    SubmissionView::Send(OutgoingView { frame, after: ThenView::Answered }),
                ),
                Err(fault) => Err(fault),
            },
            StepView::New => match opening(client, options, None, Origin::New) {
                Ok(outgoing) => Ok(SubmissionView::Send(outgoing)),
                Err(fault) => Err(fault),
            },
            StepView::Resume(thread) => match opening(
                client,
                options,
                Some(thread),
                Origin::Resume,
            ) {
                Ok(outgoing) => Ok(SubmissionView::Send(outgoing)),
                Err(fault) => Err(fault),
            },
            StepView::Turn(input) => match client.requested(
                "turn/start"@,
                self.turn_params(input),
            ) {
                Ok(sent) => Ok(
                    SubmissionView::Send(
                        OutgoingView { frame: sent.1, after: ThenView::Turn(sent.0) },
                    ),
                ),
                Err(fault) => Err(fault),
            },
            _ => Ok(SubmissionView::Done),
        }
    }
}

/// What comes of submitted input or of an interruption, with the states that it leaves.
pub struct Submitted {
    pub app: AppView,
    pub client: ClientView,
    pub result: Result<SubmissionView, Fault>,
}

impl AppView {
    /// What comes of the input, of which `read` is what it denotes as JSON.
    pub open spec fn submitted(
        self,
        read: Reading,
        client: ClientView,
        options: OptionsView,
        logs: Seq<char>,
    ) -> Submitted {
        let step = self.step(read);
        Submitted {
            app: self.after_step(step, logs),
            client: if takes_id(step) {
                client.after_request()
            } else {
                client
            },
            result: self.submission(step, client, options),
        }
    }
}

/// Whether submitted input is a request, which takes an ID.
pub open spec fn takes_id(step: StepView) -> bool {
    step is New || step is Resume || step is Turn
}

/// What comes of submitted input.
#[derive(Debug)]
pub enum Submission {
    Done,
    Quit,
    Send(Outgoing),
}

/// What comes of submitted input, by its contents.
pub enum SubmissionView {
    Done,
    Quit,
    Send(OutgoingView),
}

/// What comes of submitted input, by its contents, or the fault.
pub open spec fn submission_view(r: Result<Submission, Fault>) -> Result<SubmissionView, Fault> {
    match r {
        Ok(Submission::Done) => Ok(SubmissionView::Done),
        Ok(Submission::Quit) => Ok(SubmissionView::Quit),
        Ok(Submission::Send(outgoing)) => Ok(SubmissionView::Send(outgoing@)),
        Err(fault) => Err(fault),
    }
}

impl App {
    /// What the input asks for, of which `read` is what it denotes as JSON.
    pub fn decide(&self, read: &Result<Json, String>) -> (r: Step)
        ensures
            r@ == self@.step(reading(*read)),
    {
        let entered = trim(self.input.as_str());
        let input = entered.as_str();
        proof {
            reveal_strlit("/resume ");
        }
        if input.is_empty() {
            Step::Nothing
        } else if same(input, "/show") {
            Step::Show
        } else if same(input, "/hide") {
            Step::Hide
        } else if same(input, "/toggle") {
            Step::Toggle
        } else if same(input, "/logs") {
            Step::Logs
        } else if same(input, "/help") {
            Step::Help
        } else if same(input, "/quit") || same(input, "/exit") {
            Step::Quit
        } else if self.replay {
            Step::ReadOnly
        } else if self.pending.len() > 0 {
            match answer_read(&self.pending[0], input, read) {
                Ok(result) => Step::Reply(result),
                Err(reason) => Step::Mistake(reason),
            }
        } else if same(input, "/new") && !self.busy() {
            Step::New
        } else if starts_with(input, "/resume ") && !self.busy() {
            Step::Resume(trim(strip_prefixes(input, "/resume ").as_str()))
        } else if starts_with(input, "/") {
            Step::Unknown
        } else if self.busy() {
            Step::Busy
        } else if self.thread.is_none() {
            Step::Connecting
        } else {
            Step::Turn(entered)
        }
    }

    /// The request for a turn.
    fn request_turn(&self, input: String, client: &mut Client) -> (r: Result<Submission, Fault>)
        ensures
            final(client)@ == old(client)@.after_request(),
            match old(client)@.requested("turn/start"@, self@.turn_params(input@)) {
                Ok(sent) => submission_view(r) == Ok::<SubmissionView, Fault>(
                    SubmissionView::Send(
                        OutgoingView { frame: sent.1, after: ThenView::Turn(sent.0) },
                    ),
                ),
                Err(fault) => submission_view(r) == Err::<SubmissionView, Fault>(fault),
            },
    {
        let thread = match &self.thread {
            Some(thread) => Json::text(thread.as_str()),
            None => Json::Null,
        };
        let ghost wanted = JsonView::Object(
            no_members().insert("type"@, JsonView::Text("text"@)).insert(
                "text"@,
                JsonView::Text(input@),
            ),
        );
        let part = Json::Object(
            Object::new().with("type", Json::text("text")).with("text", Json::Text(input)),
        );
        let list = vec![part];
        assert(views(list@) =~= seq![wanted]);
        let params = Json::Object(
            Object::new().with("threadId", thread).with("input", Json::list(list)),
        );
        match client.request("turn/start", params) {
            Ok((id, frame)) => Ok(
                Submission::Send(Outgoing { frame, after: Then::Turn(id) }),
            ),
            Err(fault) => Err(fault),
        }
    }

    /// Does what submitted input asks for.
    fn perform(&mut self, step: Step, client: &mut Client, options: &Options, logs: &str) -> (r:
        Result<Submission, Fault>)
        requires
            old(self)@.wf(),
            step@ is Reply ==> old(self)@.pending.len() > 0,
        ensures
            final(self)@ == old(self)@.after_step(step@, logs@),
            final(self)@.wf(),
            final(client)@ == (if takes_id(step@) {
                old(client)@.after_request()
            } else {
                old(client)@
            }),
            submission_view(r) == old(self)@.submission(step@, old(client)@, options@),
    {
        match step {
            Step::Nothing => Ok(Submission::Done),
            Step::Show => {
                self.view.expanded = true;
                self.clear();
                Ok(Submission::Done)
            },
            Step::Hide => {
                self.view.expanded = false;
                self.clear();
                Ok(Submission::Done)
            },
            Step::Toggle => {
                self.view.toggle();
                self.clear();
                Ok(Submission::Done)
            },
            Step::Logs => {
                let mut text = "Session logs: ".to_owned();
                text.append(logs);
                self.conversation.notice(text.as_str());
                self.clear();
                Ok(Submission::Done)
            },
            Step::Help => {
                self.conversation.notice(HELP);
                self.clear();
                Ok(Submission::Done)
            },
            Step::Quit => Ok(Submission::Quit),
            Step::ReadOnly => {
                self.conversation.notice("Replay is read-only. Use /show, /hide, or /quit.");
                self.clear();
                Ok(Submission::Done)
            },
            Step::Reply(result) => match client.reply(self.pending[0].at("id").clone(), result) {
                Ok(frame) => Ok(
                    Submission::Send(Outgoing { frame, after: Then::Answered }),
                ),
                Err(fault) => Err(fault),
            },
            Step::Mistake(reason) => {
                self.conversation.notice(reason.as_str());
                Ok(Submission::Done)
            },
            Step::New => match open_thread(client, options, None, Origin::New) {
                Ok(outgoing) => Ok(Submission::Send(outgoing)),
                Err(fault) => Err(fault),
            },
            Step::Resume(thread) => match open_thread(
                client,
                options,
                Some(thread.as_str()),
                Origin::Resume,
            ) {
                Ok(outgoing) => Ok(Submission::Send(outgoing)),
                Err(fault) => Err(fault),
            },
            Step::Unknown => {
                self.conversation.notice(
                    "Unknown or unavailable command. Use /help. Interrupt an active turn before /new or /resume.",
                );
                self.clear();
                Ok(Submission::Done)
            },
            Step::Busy => {
                self.conversation.notice(
                    "A turn is running. Ctrl+C interrupts it; your next message stays in the input box.",
                );
                Ok(Submission::Done)
            },
            Step::Connecting => {
                self.conversation.notice(
                    "Still connecting to Codex. Your message stays in the input box.",
                );
                Ok(Submission::Done)
            },
            Step::Turn(input) => self.request_turn(input, client),
        }
    }

    /// Submits the input, of which `read` is what it denotes as JSON.
    pub fn submit_read(
        &mut self,
        read: &Result<Json, String>,
        client: &mut Client,
        options: &Options,
        logs: &str,
    ) -> (r: Result<Submission, Fault>)
        requires
            old(self)@.wf(),
        ensures
            final(self)@ == old(self)@.submitted(
                reading(*read),
                old(client)@,
                options@,
                logs@,
            ).app,
            final(client)@ == old(self)@.submitted(
                reading(*read),
                old(client)@,
                options@,
                logs@,
            ).client,
            submission_view(r) == old(self)@.submitted(
                reading(*read),
                old(client)@,
                options@,
                logs@,
            ).result,
            final(self)@.wf(),
    {
        let step = self.decide(read);
        self.perform(step, client, options, logs)
    }

    /// Submits the input.
    pub fn submit(&mut self, client: &mut Client, options: &Options, logs: &str) -> (r: Result<
        Submission,
        Fault,
    >)
        requires
            old(self)@.wf(),
        ensures
            final(self)@ == old(self)@.submitted(
                parsed(trimmed(old(self)@.input)),
                old(client)@,
                options@,
                logs@,
            ).app,
            final(client)@ == old(self)@.submitted(
                parsed(trimmed(old(self)@.input)),
                old(client)@,
                options@,
                logs@,
            ).client,
            submission_view(r) == old(self)@.submitted(
                parsed(trimmed(old(self)@.input)),
                old(client)@,
                options@,
                logs@,
            ).result,
            final(self)@.wf(),
    {
        let read = parse(trim(self.input.as_str()).as_str());
        self.submit_read(&read, client, options, logs)
    }
}

// ---------------------------------------------------------------------------
// Interruption and disconnection
// ---------------------------------------------------------------------------

impl AppView {
    /// The members of a request for an interruption.
    pub open spec fn interrupt_params(self) -> JsonView {
        JsonView::Object(
            no_members().insert("threadId"@, JsonView::Text(self.thread->Some_0)).insert(
                "turnId"@,
                JsonView::Text(self.turn->Some_0),
            ),
        )
    }

    /// What comes of an interruption. Only a turn that is known can be interrupted.
    pub open spec fn interrupted(self, client: ClientView) -> Submitted {
        if self.thread is Some && self.turn is Some {
            Submitted {
                app: self,
                client: client.after_request(),
                result: match client.requested("turn/interrupt"@, self.interrupt_params()) {
                    Ok(sent) => Ok(
                        SubmissionView::Send(
                            OutgoingView { frame: sent.1, after: ThenView::Interrupting(sent.0) },
                        ),
                    ),
                    Err(fault) => Err(fault),
                },
            }
        } else {
            Submitted {
                app: self.with_status("Waiting for turn to start; Ctrl+Q exits"@),
                client,
                result: Ok(SubmissionView::Done),
            }
        }
    }

    /// Without a server, and with the reason.
    pub open spec fn cut_off(self, stderr: Seq<char>, reason: Seq<char>) -> AppView {
        AppView {
            turn: None,
            starting_turn: false,
            pending: Seq::empty(),
            draft: None,
            waiting: Map::empty(),
            status: "Disconnected · /quit to exit"@,
            ..self.noticed(
                reason + "\nCodex stderr: "@ + stderr
                    + "\nUse /logs to locate this session or /quit to exit."@,
            ).at_end()
        }
    }

    /// Whether the server has taken too long to open a thread.
    pub open spec fn overdue(self, connected: bool, nanoseconds: int) -> bool {
        connected && self.thread is None && nanoseconds > 60_000_000_000
    }
}

/// What a line was written for.
#[derive(Clone, Copy, Debug, PartialEq, Eq, Structural)]
pub enum Purpose {
    Interrupt,
    Request,
}

/// What is said where a line could not be written.
pub open spec fn failure(purpose: Purpose, error: Seq<char>) -> Seq<char> {
    (match purpose {
        Purpose::Interrupt => "Could not send interrupt: "@,
        Purpose::Request => "Could not send request: "@,
    }) + error + ". Delivery is unknown; it will not be retried."@
}

/// What is said where a line could not be written.
pub fn failure_text(purpose: Purpose, error: &str) -> (r: String)
    ensures
        r@ == failure(purpose, error@),
{
    let mut text = match purpose {
        Purpose::Interrupt => "Could not send interrupt: ".to_owned(),
        Purpose::Request => "Could not send request: ".to_owned(),
    };
    text.append(error);
    text.append(". Delivery is unknown; it will not be retried.");
    text
}

impl App {
    /// Asks the server to interrupt the turn.
    pub fn interrupt(&mut self, client: &mut Client) -> (r: Result<Submission, Fault>)
        requires
            old(self)@.wf(),
        ensures
            final(self)@ == old(self)@.interrupted(old(client)@).app,
            final(client)@ == old(self)@.interrupted(old(client)@).client,
            submission_view(r) == old(self)@.interrupted(old(client)@).result,
            final(self)@.wf(),
    {
        match (&self.thread, &self.turn) {
            (Some(thread), Some(turn)) => {
                let params = Json::Object(
                    Object::new().with("threadId", Json::text(thread.as_str())).with(
                        "turnId",
                        Json::text(turn.as_str()),
                    ),
                );
                match client.request("turn/interrupt", params) {
                    Ok((id, frame)) => Ok(
                        Submission::Send(Outgoing { frame, after: Then::Interrupting(id) }),
                    ),
                    Err(fault) => Err(fault),
                }
            },
            _ => {
                self.status = "Waiting for turn to start; Ctrl+Q exits".to_owned();
                Ok(Submission::Done)
            },
        }
    }

    /// Goes on without a server. The result is whether its process is left to be ended.
    pub fn disconnected(&mut self, client: &mut Client, stderr: &str, reason: &str) -> (r: bool)
        requires
            old(self)@.wf(),
        ensures
            final(self)@ == old(self)@.cut_off(stderr@, reason@),
            final(self)@.wf(),
            final(client)@ == old(client)@.closed(),
            r == old(client)@.running,
    {
        let running = client.shutdown();
        self.turn = None;
        self.starting_turn = false;
        self.pending.clear();
        self.draft = None;
        self.waiting.clear();
        self.status = "Disconnected · /quit to exit".to_owned();
        let mut text = reason.to_owned();
        text.append("\nCodex stderr: ");
        text.append(stderr);
        text.append("\nUse /logs to locate this session or /quit to exit.");
        self.conversation.notice(text.as_str());
        self.view.end();
        assert(views(self.pending@) =~= Seq::empty());
        running
    }

    /// Says so where the server has taken too long to open a thread, and whether that was the case.
    pub fn startup_overdue(&mut self, connected: bool, nanoseconds: u128, stderr: &str) -> (r: bool)
        requires
            old(self)@.wf(),
        ensures
            r == old(self)@.overdue(connected, nanoseconds as int),
            final(self)@ == (if r {
                old(self)@.noticed(
                    "Codex is still connecting. Check "@ + stderr@ + ". Ctrl+Q exits."@,
                )
            } else {
                old(self)@
            }),
            final(self)@.wf(),
    {
        if connected && self.thread.is_none() && nanoseconds > 60_000_000_000 {
            let mut text = "Codex is still connecting. Check ".to_owned();
            text.append(stderr);
            text.append(". Ctrl+Q exits.");
            self.conversation.notice(text.as_str());
            true
        } else {
            false
        }
    }
}

// ---------------------------------------------------------------------------
// The beginning and the end of a session
// ---------------------------------------------------------------------------

/// The members of the first request.
pub open spec fn initialize_params() -> JsonView {
    JsonView::Object(
        no_members().insert(
            "clientInfo"@,
            JsonView::Object(
                no_members().insert("name"@, JsonView::Text("codex_silent"@)).insert(
                    "title"@,
                    JsonView::Text("Codex Silent"@),
                ).insert("version"@, JsonView::Text(VERSION@)),
            ),
        ).insert(
            "capabilities"@,
            JsonView::Object(no_members().insert("experimentalApi"@, JsonView::Bool(true))),
        ),
    )
}

/// The first request.
pub fn initialize(client: &mut Client) -> (r: Result<(u64, Vec<u8>), Fault>)
    ensures
        final(client)@ == old(client)@.after_request(),
        match old(client)@.requested("initialize"@, initialize_params()) {
            Ok(sent) => r is Ok && r->Ok_0.0 == sent.0 && r->Ok_0.1@ == sent.1,
            Err(fault) => r == Err::<(u64, Vec<u8>), Fault>(fault),
        },
{
    let info = Json::Object(
        Object::new().with("name", Json::text("codex_silent")).with(
            "title",
            Json::text("Codex Silent"),
        ).with("version", Json::text(VERSION)),
    );
    let capabilities = Json::Object(Object::new().with("experimentalApi", Json::Bool(true)));
    let params = Json::Object(
        Object::new().with("clientInfo", info).with("capabilities", capabilities),
    );
    client.request("initialize", params)
}

impl AppView {
    /// Waiting for the reply to the first request.
    pub open spec fn begun(self, id: u64) -> AppView {
        AppView { waiting: self.waiting.insert(id, Waiting::Initialize), ..self }.noticed(
            "Tool activity is hidden. Ctrl+O shows or hides it. /help lists commands."@,
        )
    }
}

impl App {
    /// Waits for the reply to the first request.
    pub fn begin(&mut self, id: u64)
        requires
            old(self)@.wf(),
        ensures
            final(self)@ == old(self)@.begun(id),
            final(self)@.wf(),
    {
        self.waiting.insert(id, Waiting::Initialize);
        self.conversation.notice(
            "Tool activity is hidden. Ctrl+O shows or hides it. /help lists commands.",
        );
    }
}

/// What a message says of the first request.
#[derive(Debug)]
pub enum Handshake {
    Open,
    Passed,
    Refused(String),
}

/// What a message says of the first request.
pub fn handshake(message: &Json, id: u64) -> (r: Handshake)
    ensures
        r is Open <==> unsigned_of(field(message@, "id"@)) != Some(id),
        unsigned_of(field(message@, "id"@)) == Some(id) ==> match member(message@, "error"@) {
            Some(error) => r is Refused && r->Refused_0@ == error_message(error),
            None => r is Passed,
        },
{
    match message.at("id").as_u64() {
        Some(found) => {
            if found != id {
                return Handshake::Open;
            }
            match message.get("error") {
                Some(error) => Handshake::Refused(error_text(error)),
                None => Handshake::Passed,
            }
        },
        None => Handshake::Open,
    }
}

/// What is said of a passed handshake.
pub fn handshake_text(codex: &str, cwd: &str, logs: &str) -> (r: String)
    ensures
        r@ == "Codex app-server handshake passed.\nBackend: "@ + codex@ + "\nWorking directory: "@
            + cwd@ + "\nLogs: "@ + logs@,
{
    let mut text = "Codex app-server handshake passed.\nBackend: ".to_owned();
    text.append(codex);
    text.append("\nWorking directory: ");
    text.append(cwd);
    text.append("\nLogs: ");
    text.append(logs);
    text
}

/// What is said of a handshake that does not end.
pub fn handshake_timeout(error: &str, stderr: &str) -> (r: String)
    ensures
        r@ == "Codex did not complete initialization: "@ + error@ + ". Check "@ + stderr@,
{
    let mut text = "Codex did not complete initialization: ".to_owned();
    text.append(error);
    text.append(". Check ");
    text.append(stderr);
    text
}

/// What is said of a handshake that fails.
pub fn handshake_failure(error: &str, stderr: &str) -> (r: String)
    ensures
        r@ == error@ + ". Check "@ + stderr@,
{
    let mut text = error.to_owned();
    text.append(". Check ");
    text.append(stderr);
    text
}

/// How the thread of a session can be resumed.
pub fn resume_hint(thread: &str) -> (r: String)
    ensures
        r@ == "Resume: codex-silent --resume "@ + thread@,
{
    let mut text = "Resume: codex-silent --resume ".to_owned();
    text.append(thread);
    text
}

// ---------------------------------------------------------------------------
// Laws
// ---------------------------------------------------------------------------

/// Requests wait for their turn: while one is presented, another changes nothing but the queue.
pub proof fn later_requests_wait(a: AppView, message: JsonView)
    requires
        a.pending.len() > 0,
    ensures
        a.queued(message) == (AppView { pending: a.queued(message).pending, ..a }),
        a.queued(message).pending == a.pending.push(a.enriched(message)),
        a.queued(message).pending[0] == a.pending[0],
{
}

/// A request takes the input box, and what the user was writing comes back once it is answered,
/// whatever the answer was.
pub proof fn answering_restores_the_draft(
    a: AppView,
    message: JsonView,
    typed: Seq<char>,
    cursor: nat,
)
    requires
        a.pending.len() == 0,
    ensures
        a.queued(message).input.len() == 0,
        a.queued(message).pending.len() == 1,
        (AppView { input: typed, cursor, ..a.queued(message) }).after_delivery(
            ThenView::Answered,
        ).input == a.input,
        (AppView { input: typed, cursor, ..a.queued(message) }).after_delivery(
            ThenView::Answered,
        ).cursor == a.cursor,
        (AppView { input: typed, cursor, ..a.queued(message) }).after_delivery(
            ThenView::Answered,
        ).pending.len() == 0,
{
}

/// Answers go out in the order of the requests: an answer is for the request at the front, and the
/// next one in the queue takes its place.
pub proof fn requests_are_answered_in_order(
    a: AppView,
    read: Reading,
    client: ClientView,
    options: OptionsView,
    logs: Seq<char>,
)
    requires
        a.pending.len() > 1,
        a.step(read) is Reply,
        client.open,
    ensures
        a.submitted(read, client, options, logs).result is Ok,
        a.submitted(read, client, options, logs).result->Ok_0 == SubmissionView::Send(
            OutgoingView {
                frame: frame(
                    reply_message(
                        field(a.pending[0], "id"@),
                        answered(a.pending[0], trimmed(a.input), read)->Ok_0,
                    ),
                ),
                after: ThenView::Answered,
            },
        ),
        a.after_delivery(ThenView::Answered).pending == a.pending.skip(1),
        a.after_delivery(ThenView::Answered).pending[0] == a.pending[1],
        a.after_delivery(ThenView::Answered).input.len() == 0,
        a.after_delivery(ThenView::Answered).draft == a.draft,
{
}

/// What the user was writing before the first of several requests comes back with the last answer.
pub proof fn the_last_answer_restores_the_draft(a: AppView)
    requires
        a.pending.len() == 1,
        a.draft is Some,
    ensures
        a.after_delivery(ThenView::Answered).input == a.draft->Some_0.0,
        a.after_delivery(ThenView::Answered).cursor == a.draft->Some_0.1,
        a.after_delivery(ThenView::Answered).draft is None,
{
}

/// Nothing is answered before the user has entered an answer: input that is no answer is kept, and
/// nothing is written.
pub proof fn mistakes_send_nothing(
    a: AppView,
    read: Reading,
    client: ClientView,
    options: OptionsView,
    logs: Seq<char>,
)
    requires
        a.step(read) is Mistake || a.step(read) is Nothing,
    ensures
        a.submitted(read, client, options, logs).result == Ok::<SubmissionView, Fault>(
            SubmissionView::Done,
        ),
        a.submitted(read, client, options, logs).client == client,
        a.submitted(read, client, options, logs).app.pending == a.pending,
        a.submitted(read, client, options, logs).app.input == a.input,
        a.submitted(read, client, options, logs).app.cursor == a.cursor,
{
}

/// A request that is resolved elsewhere while it waits leaves the presented one alone, with what the
/// user has entered for it.
pub proof fn resolving_a_waiting_request_keeps_the_input(a: AppView, id: JsonView)
    requires
        a.pending.len() > 0,
        !json_eq(field(a.pending[0], "id"@), id),
    ensures
        a.after_resolution(id) == (AppView { pending: a.unresolved(id), ..a }),
        a.after_resolution(id).pending.len() > 0,
        a.after_resolution(id).pending[0] == a.pending[0],
{
    let keep = |request: JsonView| !json_eq(field(request, "id"@), id);
    lemma_filter_front(a.pending, keep);
}

proof fn lemma_filter_front(pending: Seq<JsonView>, keep: spec_fn(JsonView) -> bool)
    requires
        pending.len() > 0,
        keep(pending[0]),
    ensures
        pending.filter(keep).len() > 0,
        pending.filter(keep)[0] == pending[0],
    decreases pending.len(),
{
    reveal(Seq::filter);
    if pending.len() > 1 {
        lemma_filter_front(pending.drop_last(), keep);
    } else {
        assert(pending.drop_last() =~= Seq::empty());
        assert(pending.drop_last().filter(keep) =~= Seq::empty());
    }
}

/// A request that is resolved elsewhere while it is presented takes what the user has entered for it
/// with it: nothing entered for one request can be sent for the next.
pub proof fn resolving_the_presented_request_clears_its_input(a: AppView, id: JsonView)
    requires
        a.pending.len() > 0,
        json_eq(field(a.pending[0], "id"@), id),
        a.unresolved(id).len() > 0,
    ensures
        a.after_resolution(id).input.len() == 0,
        a.after_resolution(id).cursor == 0,
        a.after_resolution(id).pending == a.unresolved(id),
{
}

/// A completed turn stays completed: the reply to its start does not bring it back, however late.
pub proof fn a_completed_turn_stays_completed(
    a: AppView,
    completed: JsonView,
    message: JsonView,
    id: u64,
)
    requires
        text_of(field(completed, "id"@)) is Some,
        field(field(field(message, "result"@), "turn"@), "id"@) == field(completed, "id"@),
        member(message, "error"@) is None,
    ensures
        !a.after_turn(completed).busy(),
        !a.after_turn(completed).after_reply(message, id).busy(),
        a.after_turn(completed).after_reply(message, id).turn is None,
{
}

/// A turn that has not been completed is running once its start is confirmed.
pub proof fn a_started_turn_is_running(a: AppView, message: JsonView, id: u64)
    requires
        a.waiting.dom().contains(id),
        a.waiting[id] == Waiting::Turn,
        member(message, "error"@) is None,
        field(field(field(message, "result"@), "turn"@), "status"@) == JsonView::Text(
            "inProgress"@,
        ),
        a.finished_turn != text_of(field(field(field(message, "result"@), "turn"@), "id"@)),
    ensures
        a.after_reply(message, id).busy(),
        !a.after_reply(message, id).waiting.dom().contains(id),
{
}

/// Requests that are open when their turn is completed are void.
pub proof fn a_completed_turn_leaves_no_requests(a: AppView, turn: JsonView)
    ensures
        a.after_turn(turn).pending.len() == 0,
{
}

/// A replay is read-only: whatever is entered, nothing is written.
pub proof fn replay_is_read_only(
    a: AppView,
    read: Reading,
    client: ClientView,
    options: OptionsView,
    logs: Seq<char>,
)
    requires
        a.replay,
    ensures
        a.submitted(read, client, options, logs).client == client,
        a.submitted(read, client, options, logs).result is Ok,
        !(a.submitted(read, client, options, logs).result->Ok_0 is Send),
{
}

/// Events of another thread change nothing.
pub proof fn other_threads_are_ignored(a: AppView, message: JsonView)
    requires
        !a.concerned_by(message),
    ensures
        a.after_event(message) == a,
{
}

/// A request that is not supported is refused, and not shown to the user as one to answer.
pub proof fn unsupported_requests_are_refused(a: AppView, message: JsonView, client: ClientView)
    requires
        member(message, "method"@) is Some,
        member(message, "id"@) is Some,
        !supported(text_or_empty(field(message, "method"@))),
        client.open,
    ensures
        a.after_message(message) == a,
        a.returned(message, client) is Ok,
        a.returned(message, client)->Ok_0 is Some,
        a.returned(message, client)->Ok_0->Some_0.frame == frame(
            refusal(
                field(message, "id"@),
                "Request is not supported by this version of codex-silent"@,
            ),
        ),
        a.after_delivery(a.returned(message, client)->Ok_0->Some_0.after) == a.noticed(
            unsupported_text(text_or_empty(field(message, "method"@))),
        ),
{
}

/// What needs a response is in sight: a presented request is a notice, which the display never
/// hides, and it is the last one, with which the view stays.
pub proof fn presented_requests_are_in_sight(a: AppView, expanded: bool)
    requires
        a.pending.len() > 0,
    ensures
        a.presented().conversation.shown(expanded).len() > 0,
        a.presented().conversation.shown(expanded).last().text == escaped(
            description(a.pending[0]),
        ),
        a.presented().view.anchor is None,
{
    reveal(Seq::filter);
    let entries = a.presented().conversation.entries;
    assert(entries.drop_last() =~= a.conversation.entries);
}

/// After a disconnection nothing waits for the server any more, and what was shown stays.
pub proof fn a_disconnection_keeps_the_conversation(
    a: AppView,
    stderr: Seq<char>,
    reason: Seq<char>,
)
    ensures
        !a.cut_off(stderr, reason).busy(),
        a.cut_off(stderr, reason).pending.len() == 0,
        a.cut_off(stderr, reason).waiting.dom() =~= Set::empty(),
        a.conversation.entries.is_prefix_of(a.cut_off(stderr, reason).conversation.entries),
        a.cut_off(stderr, reason).input == a.input,
{
}

/// A new conversation leaves earlier answers where they are.
pub proof fn a_new_thread_keeps_earlier_answers(a: AppView, id: u64, origin: Origin)
    ensures
        a.conversation.entries.is_prefix_of(
            a.after_delivery(ThenView::Opening(id, origin)).conversation.entries,
        ),
{
}

/// While a turn is running, what the user writes stays in the input box and nothing is written.
pub proof fn a_running_turn_keeps_the_next_message(
    a: AppView,
    read: Reading,
    client: ClientView,
    options: OptionsView,
    logs: Seq<char>,
)
    requires
        a.busy(),
        !a.replay,
        a.pending.len() == 0,
        trimmed(a.input).len() > 0,
        trimmed(a.input)[0] != '/',
    ensures
        a.submitted(read, client, options, logs).app.input == a.input,
        a.submitted(read, client, options, logs).app.cursor == a.cursor,
        a.submitted(read, client, options, logs).client == client,
        a.submitted(read, client, options, logs).result == Ok::<SubmissionView, Fault>(
            SubmissionView::Done,
        ),
{
    reveal_strlit("/show");
    reveal_strlit("/hide");
    reveal_strlit("/toggle");
    reveal_strlit("/logs");
    reveal_strlit("/help");
    reveal_strlit("/quit");
    reveal_strlit("/exit");
    reveal_strlit("/new");
    reveal_strlit("/resume ");
    reveal_strlit("/");
    assert("/show"@[0] == '/' && "/hide"@[0] == '/' && "/toggle"@[0] == '/' && "/logs"@[0] == '/'
        && "/help"@[0] == '/' && "/quit"@[0] == '/' && "/exit"@[0] == '/' && "/new"@[0] == '/'
        && "/resume "@[0] == '/' && "/"@[0] == '/');
}

/// Whether two sessions differ in nothing but what is on the screen.
pub open spec fn alike(a: AppView, b: AppView) -> bool {
    a == (AppView { view: a.view, ..b })
}

/// What is on the screen never matters to the server: sessions that differ only in that write the
/// same lines, and still differ only in that afterwards. Showing or hiding activity, or scrolling,
/// changes nothing of what the server receives.
pub proof fn the_view_never_reaches_the_server(
    a: AppView,
    b: AppView,
    message: JsonView,
    read: Reading,
    client: ClientView,
    options: OptionsView,
    logs: Seq<char>,
    after: ThenView,
)
    requires
        alike(a, b),
    ensures
        a.returned(message, client) == b.returned(message, client),
        alike(a.after_message(message), b.after_message(message)),
        a.submitted(read, client, options, logs).result == b.submitted(
            read,
            client,
            options,
            logs,
        ).result,
        a.submitted(read, client, options, logs).client == b.submitted(
            read,
            client,
            options,
            logs,
        ).client,
        alike(
            a.submitted(read, client, options, logs).app,
            b.submitted(read, client, options, logs).app,
        ),
        a.interrupted(client).result == b.interrupted(client).result,
        alike(a.interrupted(client).app, b.interrupted(client).app),
        alike(a.after_delivery(after), b.after_delivery(after)),
{
    lemma_view_and_messages(a, b, message, client);
    lemma_view_and_input(a, b, read, client, options, logs);
}

proof fn lemma_view_and_messages(a: AppView, b: AppView, message: JsonView, client: ClientView)
    requires
        alike(a, b),
    ensures
        a.returned(message, client) == b.returned(message, client),
        alike(a.after_message(message), b.after_message(message)),
{
    assert(a.enriched(message) == b.enriched(message));
}

proof fn lemma_view_and_input(
    a: AppView,
    b: AppView,
    read: Reading,
    client: ClientView,
    options: OptionsView,
    logs: Seq<char>,
)
    requires
        alike(a, b),
    ensures
        a.submitted(read, client, options, logs).result == b.submitted(
            read,
            client,
            options,
            logs,
        ).result,
        a.submitted(read, client, options, logs).client == b.submitted(
            read,
            client,
            options,
            logs,
        ).client,
        alike(
            a.submitted(read, client, options, logs).app,
            b.submitted(read, client, options, logs).app,
        ),
{
    assert(a.step(read) == b.step(read));
}

/// The conversation on display never reaches the server either: what is written for submitted input
/// does not depend on it.
pub proof fn the_display_is_never_sent(
    a: AppView,
    conversation: ConversationView,
    message: JsonView,
    read: Reading,
    client: ClientView,
    options: OptionsView,
    logs: Seq<char>,
)
    ensures
        (AppView { conversation, ..a }).submitted(read, client, options, logs).result
            == a.submitted(read, client, options, logs).result,
        (AppView { conversation, ..a }).interrupted(client).result == a.interrupted(client).result,
        (AppView { conversation, ..a }).returned(message, client) == a.returned(message, client),
{
    assert((AppView { conversation, ..a }).step(read) == a.step(read));
}

/// Threads are opened and turns are started only while no turn is running and no request is open.
pub proof fn new_work_starts_only_while_idle(a: AppView, read: Reading)
    requires
        takes_id(a.step(read)),
    ensures
        !a.busy(),
        !a.replay,
        a.pending.len() == 0,
{
}

/// The requests that are presented to the user are those that can be answered: whatever is entered,
/// an answer is refused as one to an unsupported request if and only if the method of the request is
/// not among the supported ones.
pub proof fn presented_requests_are_those_that_can_be_answered(
    request: JsonView,
    input: Seq<char>,
    read: Reading,
)
    ensures
        refused_as_unsupported(answered(request, input, read)) <==> !supported(method_of(request)),
{
    only_unknown_methods_are_unsupported(request, input, read);
}

/// The same over all inputs: a method is not among the supported ones if and only if every answer to
/// its request is an error that mentions an unsupported request.
pub proof fn unsupported_requests_have_no_answer(request: JsonView)
    ensures
        !supported(method_of(request)) <==> forall|input: Seq<char>, read: Reading|
            answered(request, input, read) is Err && mentions(
                (#[trigger] answered(request, input, read))->Err_0,
                "Unsupported server request"@,
            ),
{
    if supported(method_of(request)) {
        let (input, read) = answer_of_its_own(request);
        assert(!(answered(request, input, read) is Err && mentions(
            answered(request, input, read)->Err_0,
            "Unsupported server request"@,
        )));
    } else {
        assert forall|input: Seq<char>, read: Reading| answered(request, input, read) is Err
            && mentions(
            (#[trigger] answered(request, input, read))->Err_0,
            "Unsupported server request"@,
        ) by {
            only_unknown_methods_are_unsupported(request, input, read);
            let text = answered(request, input, read)->Err_0;
            let start = "Unsupported server request "@;
            let part = "Unsupported server request"@;
            reveal_strlit("Unsupported server request");
            reveal_strlit("Unsupported server request ");
            assert(start.len() == 27 && part.len() == 26);
            assert(part =~= start.subrange(0, 26));
            assert(text.subrange(0, 27) == start);
            assert(text.subrange(0, 0int + part.len()) =~= text.subrange(0, 27).subrange(0, 26));
        }
    }
}

// ---------------------------------------------------------------------------
// What is asked of the server
// ---------------------------------------------------------------------------

proof fn lemma_keys_differ()
    ensures
        "cwd"@ != "model"@,
        "cwd"@ != "threadId"@,
        "model"@ != "threadId"@,
        "threadId"@ != "input"@,
        "threadId"@ != "turnId"@,
        "type"@ != "text"@,
        "clientInfo"@ != "capabilities"@,
        "name"@ != "title"@,
        "name"@ != "version"@,
        "title"@ != "version"@,
        "thread/start"@ != "thread/resume"@,
{
    reveal_strlit("cwd");
    reveal_strlit("model");
    reveal_strlit("threadId");
    reveal_strlit("turnId");
    reveal_strlit("input");
    reveal_strlit("type");
    reveal_strlit("text");
    reveal_strlit("clientInfo");
    reveal_strlit("capabilities");
    reveal_strlit("name");
    reveal_strlit("title");
    reveal_strlit("version");
    reveal_strlit("thread/start");
    reveal_strlit("thread/resume");
    assert("cwd"@.len() == 3 && "model"@.len() == 5 && "threadId"@.len() == 8 && "turnId"@.len()
        == 6 && "input"@.len() == 5 && "clientInfo"@.len() == 10 && "capabilities"@.len() == 12
        && "name"@.len() == 4 && "title"@.len() == 5 && "version"@.len() == 7
        && "thread/start"@.len() == 12 && "thread/resume"@.len() == 13);
    assert("type"@[1] == 'y' && "text"@[1] == 'e');
}

/// Whether a message is a request of this client: with an ID, a method and params, and nothing else.
pub open spec fn asks(message: JsonView, id: u64, method: Seq<char>, params: JsonView) -> bool {
    &&& message is Object && message->Object_0.dom() =~= set!["id"@, "method"@, "params"@]
    &&& field(message, "id"@) == JsonView::Num(NumberView::Pos(id))
    &&& field(message, "method"@) == JsonView::Text(method)
    &&& field(message, "params"@) == params
}

/// Whether the params of a request are for a thread: the directory of the options always, their model just
/// where one is given, and the thread just where one is resumed.
pub open spec fn for_thread(
    params: JsonView,
    options: OptionsView,
    resume: Option<Seq<char>>,
) -> bool {
    &&& params is Object
    &&& field(params, "cwd"@) == JsonView::Text(options.cwd)
    &&& member(params, "model"@) == match options.model {
        Some(model) => Some(JsonView::Text(model)),
        None => None,
    }
    &&& member(params, "threadId"@) == match resume {
        Some(thread) => Some(JsonView::Text(thread)),
        None => None,
    }
    &&& forall|key: Seq<char>| #[trigger]
        params->Object_0.dom().contains(key) ==> key == "cwd"@ || key == "model"@ || key
            == "threadId"@
}

/// A thread is asked for with the directory of the options, with their model if and only if one is given,
/// and with the thread if and only if one is resumed: then it is resumed, and otherwise a new one is
/// started. The reply is waited for under the ID of the request.
pub proof fn a_thread_is_asked_for_as_chosen(
    client: ClientView,
    options: OptionsView,
    resume: Option<Seq<char>>,
    origin: Origin,
)
    requires
        client.open,
        client.next_id < u64::MAX,
    ensures
        opening(client, options, resume, origin) is Ok,
        opening(client, options, resume, origin)->Ok_0.after == ThenView::Opening(
            client.next_id,
            origin,
        ),
        exists|message: JsonView|
            {
                &&& opening(client, options, resume, origin)->Ok_0.frame == #[trigger] encoded(
                    message,
                ) + seq![10u8]
                &&& asks(
                    message,
                    client.next_id,
                    if resume is Some {
                        "thread/resume"@
                    } else {
                        "thread/start"@
                    },
                    field(message, "params"@),
                )
                &&& for_thread(field(message, "params"@), options, resume)
            },
{
    lemma_keys_differ();
    let method = if resume is Some {
        "thread/resume"@
    } else {
        "thread/start"@
    };
    let params = thread_params(options, resume);
    a_request_says_what_is_asked(client, method, params);
    let message = request_message(client.next_id, method, params);
    assert(carries(opening(client, options, resume, origin)->Ok_0.frame, message));
    assert(for_thread(params, options, resume));
    assert(asks(message, client.next_id, method, field(message, "params"@)));
}

/// Once the handshake is done, the thread of the options is asked for: the one to resume, or a new one.
/// After any other line nothing more is written.
pub proof fn the_handshake_leads_to_a_thread(
    after: ThenView,
    client: ClientView,
    options: OptionsView,
)
    ensures
        following(ThenView::Initialized, client, options) == match opening(
            client,
            options,
            options.resume,
            Origin::Startup,
        ) {
            Ok(outgoing) => Ok::<Option<OutgoingView>, Fault>(Some(outgoing)),
            Err(fault) => Err::<Option<OutgoingView>, Fault>(fault),
        },
        after != ThenView::Initialized ==> following(after, client, options) == Ok::<
            Option<OutgoingView>,
            Fault,
        >(None),
{
}

/// The first request says who is asking, and that everything of the protocol is understood.
pub proof fn the_client_introduces_itself()
    ensures
        ({
            let params = initialize_params();
            let info = field(params, "clientInfo"@);
            &&& params is Object && params->Object_0.dom() =~= set!["clientInfo"@, "capabilities"@]
            &&& field(info, "name"@) == JsonView::Text("codex_silent"@)
            &&& field(info, "title"@) == JsonView::Text("Codex Silent"@)
            &&& field(info, "version"@) == JsonView::Text("0.2.0"@)
            &&& field(field(params, "capabilities"@), "experimentalApi"@) == JsonView::Bool(true)
        }),
{
    lemma_keys_differ();
}

/// A message of the user, which is no command, starts a turn in the open thread with that message, without
/// the white space around it, as the only input.
pub proof fn a_turn_is_started_with_what_was_entered(
    a: AppView,
    read: Reading,
    client: ClientView,
    options: OptionsView,
    logs: Seq<char>,
    thread: Seq<char>,
)
    requires
        !a.replay,
        a.pending.len() == 0,
        a.turn is None,
        !a.starting_turn,
        a.thread == Some(thread),
        trimmed(a.input).len() > 0,
        trimmed(a.input)[0] != '/',
        client.open,
        client.next_id < u64::MAX,
    ensures
        ({
            let done = a.submitted(read, client, options, logs);
            &&& done.app == a
            &&& done.client == client.after_request()
            &&& done.result is Ok && done.result->Ok_0 is Send
            &&& done.result->Ok_0->Send_0.after == ThenView::Turn(client.next_id)
            &&& exists|message: JsonView|
                {
                    let params = field(message, "params"@);
                    let part = field(params, "input"@)->Array_0[0];
                    &&& done.result->Ok_0->Send_0.frame == #[trigger] encoded(message) + seq![10u8]
                    &&& asks(message, client.next_id, "turn/start"@, params)
                    &&& params is Object && params->Object_0.dom() =~= set!["threadId"@, "input"@]
                    &&& field(params, "threadId"@) == JsonView::Text(thread)
                    &&& field(params, "input"@) is Array && field(params, "input"@)->Array_0.len()
                        == 1
                    &&& field(part, "type"@) == JsonView::Text("text"@)
                    &&& field(part, "text"@) == JsonView::Text(trimmed(a.input))
                    &&& part->Object_0.dom() =~= set!["type"@, "text"@]
                }
        }),
{
    lemma_keys_differ();
    lemma_no_command(trimmed(a.input));
    let params = a.turn_params(trimmed(a.input));
    a_request_says_what_is_asked(client, "turn/start"@, params);
    let message = request_message(client.next_id, "turn/start"@, params);
    let done = a.submitted(read, client, options, logs);
    assert(a.step(read) == StepView::Turn(trimmed(a.input)));
    assert(carries(done.result->Ok_0->Send_0.frame, message));
    assert(asks(message, client.next_id, "turn/start"@, field(message, "params"@)));
    let part = field(params, "input"@)->Array_0[0];
    assert(part->Object_0.dom() =~= set!["type"@, "text"@]);
    assert(params->Object_0.dom() =~= set!["threadId"@, "input"@]);
}

/// What does not begin with a slash is no command.
proof fn lemma_no_command(input: Seq<char>)
    requires
        input.len() > 0,
        input[0] != '/',
    ensures
        input != "/show"@,
        input != "/hide"@,
        input != "/toggle"@,
        input != "/logs"@,
        input != "/help"@,
        input != "/quit"@,
        input != "/exit"@,
        input != "/new"@,
        !"/resume "@.is_prefix_of(input),
        !"/"@.is_prefix_of(input),
{
    reveal_strlit("/show");
    reveal_strlit("/hide");
    reveal_strlit("/toggle");
    reveal_strlit("/logs");
    reveal_strlit("/help");
    reveal_strlit("/quit");
    reveal_strlit("/exit");
    reveal_strlit("/new");
    reveal_strlit("/resume ");
    reveal_strlit("/");
    assert("/show"@[0] == '/' && "/hide"@[0] == '/' && "/toggle"@[0] == '/' && "/logs"@[0] == '/'
        && "/help"@[0] == '/' && "/quit"@[0] == '/' && "/exit"@[0] == '/' && "/new"@[0] == '/'
        && "/resume "@[0] == '/' && "/"@[0] == '/');
}

/// The turn that is running is interrupted by its ID, in its thread; as long as it has none, nothing is
/// written and the status says so.
pub proof fn the_running_turn_is_interrupted(a: AppView, client: ClientView)
    requires
        client.open,
        client.next_id < u64::MAX,
    ensures
        a.thread is None || a.turn is None ==> {
            &&& a.interrupted(client).result == Ok::<SubmissionView, Fault>(SubmissionView::Done)
            &&& a.interrupted(client).client == client
            &&& a.interrupted(client).app == (AppView {
                status: "Waiting for turn to start; Ctrl+Q exits"@,
                ..a
            })
        },
        a.thread is Some && a.turn is Some ==> {
            let done = a.interrupted(client);
            &&& done.app == a
            &&& done.client == client.after_request()
            &&& done.result is Ok && done.result->Ok_0 is Send
            &&& done.result->Ok_0->Send_0.after == ThenView::Interrupting(client.next_id)
            &&& exists|message: JsonView|
                {
                    let params = field(message, "params"@);
                    &&& done.result->Ok_0->Send_0.frame == #[trigger] encoded(message) + seq![10u8]
                    &&& asks(message, client.next_id, "turn/interrupt"@, params)
                    &&& params is Object && params->Object_0.dom() =~= set!["threadId"@, "turnId"@]
                    &&& field(params, "threadId"@) == JsonView::Text(a.thread->Some_0)
                    &&& field(params, "turnId"@) == JsonView::Text(a.turn->Some_0)
                }
        },
{
    lemma_keys_differ();
    if a.thread is Some && a.turn is Some {
        let params = a.interrupt_params();
        a_request_says_what_is_asked(client, "turn/interrupt"@, params);
        let message = request_message(client.next_id, "turn/interrupt"@, params);
        let done = a.interrupted(client);
        assert(carries(done.result->Ok_0->Send_0.frame, message));
        assert(asks(message, client.next_id, "turn/interrupt"@, field(message, "params"@)));
        assert(params->Object_0.dom() =~= set!["threadId"@, "turnId"@]);
    }
}

/// Whether what was entered is nothing, or one of the commands that need no server.
pub open spec fn is_local(entered: Seq<char>) -> bool {
    entered.len() == 0 || entered == "/show"@ || entered == "/hide"@ || entered == "/toggle"@
        || entered == "/logs"@ || entered == "/help"@ || entered == "/quit"@ || entered == "/exit"@
}

/// The answer that the user has entered is written for the request at the front of the queue, by the ID
/// of that request, and nothing else is written with it.
pub proof fn an_answer_is_written_for_its_request(
    a: AppView,
    read: Reading,
    client: ClientView,
    options: OptionsView,
    logs: Seq<char>,
)
    requires
        !a.replay,
        a.pending.len() > 0,
        !is_local(trimmed(a.input)),
        client.open,
    ensures
        ({
            let done = a.submitted(read, client, options, logs);
            let answer = answered(a.pending[0], trimmed(a.input), read);
            &&& done.client == client
            &&& done.result is Ok
            &&& answer is Ok ==> done.app == a && done.result->Ok_0 is Send
                && done.result->Ok_0->Send_0.after == ThenView::Answered && exists|
                message: JsonView,
            |
                {
                    &&& done.result->Ok_0->Send_0.frame == #[trigger] encoded(message) + seq![10u8]
                    &&& message is Object && message->Object_0.dom() =~= set!["id"@, "result"@]
                    &&& field(message, "id"@) == field(a.pending[0], "id"@)
                    &&& field(message, "result"@) == answer->Ok_0
                }
            &&& answer is Err ==> done.result->Ok_0 is Done && done.app == (AppView {
                conversation: a.conversation.noticed(answer->Err_0),
                ..a
            })
        }),
{
    let answer = answered(a.pending[0], trimmed(a.input), read);
    if answer is Ok {
        let message = reply_message(field(a.pending[0], "id"@), answer->Ok_0);
        a_message_says_what_is_meant(
            client,
            Seq::empty(),
            message,
            field(a.pending[0], "id"@),
            Seq::empty(),
        );
        a_message_says_what_is_meant(
            client,
            Seq::empty(),
            answer->Ok_0,
            field(a.pending[0], "id"@),
            Seq::empty(),
        );
        let done = a.submitted(read, client, options, logs);
        assert(carries(done.result->Ok_0->Send_0.frame, message));
    }
}

proof fn lemma_commands_differ()
    ensures
        "/show"@ == seq!['/', 's', 'h', 'o', 'w'],
        "/hide"@ == seq!['/', 'h', 'i', 'd', 'e'],
        "/toggle"@ == seq!['/', 't', 'o', 'g', 'g', 'l', 'e'],
        "/logs"@ == seq!['/', 'l', 'o', 'g', 's'],
        "/help"@ == seq!['/', 'h', 'e', 'l', 'p'],
        "/quit"@ == seq!['/', 'q', 'u', 'i', 't'],
        "/exit"@ == seq!['/', 'e', 'x', 'i', 't'],
        "/new"@ == seq!['/', 'n', 'e', 'w'],
{
    reveal_strlit("/show");
    reveal_strlit("/hide");
    reveal_strlit("/toggle");
    reveal_strlit("/logs");
    reveal_strlit("/help");
    reveal_strlit("/quit");
    reveal_strlit("/exit");
    reveal_strlit("/new");
    assert("/show"@ =~= seq!['/', 's', 'h', 'o', 'w']);
    assert("/hide"@ =~= seq!['/', 'h', 'i', 'd', 'e']);
    assert("/toggle"@ =~= seq!['/', 't', 'o', 'g', 'g', 'l', 'e']);
    assert("/logs"@ =~= seq!['/', 'l', 'o', 'g', 's']);
    assert("/help"@ =~= seq!['/', 'h', 'e', 'l', 'p']);
    assert("/quit"@ =~= seq!['/', 'q', 'u', 'i', 't']);
    assert("/exit"@ =~= seq!['/', 'e', 'x', 'i', 't']);
    assert("/new"@ =~= seq!['/', 'n', 'e', 'w']);
}

/// The commands that need no server do what they say, always: they show or hide activity, say where the
/// logs are or what the commands are, or end the session. Whatever they do, they write nothing, and the
/// input is empty afterwards unless the session ends.
pub proof fn local_commands_do_what_they_say(
    a: AppView,
    read: Reading,
    client: ClientView,
    options: OptionsView,
    logs: Seq<char>,
)
    ensures
        ({
            let entered = trimmed(a.input);
            let done = a.submitted(read, client, options, logs);
            let shows = |expanded: bool|
                AppView {
                    view: ViewState { expanded, ..a.view },
                    input: Seq::empty(),
                    cursor: 0,
                    ..a
                };
            let says = |text: Seq<char>|
                AppView {
                    conversation: a.conversation.noticed(text),
                    input: Seq::empty(),
                    cursor: 0,
                    ..a
                };
            let local = entered.len() == 0 || entered == "/show"@ || entered == "/hide"@ || entered
                == "/toggle"@ || entered == "/logs"@ || entered == "/help"@ || entered == "/quit"@
                || entered == "/exit"@;
            &&& entered.len() == 0 ==> done.app == a
            &&& entered == "/show"@ ==> done.app == shows(true)
            &&& entered == "/hide"@ ==> done.app == shows(false)
            &&& entered == "/toggle"@ ==> done.app == shows(!a.view.expanded)
            &&& entered == "/logs"@ ==> done.app == says("Session logs: "@ + logs)
            &&& entered == "/help"@ ==> done.app == says(HELP@)
            &&& entered == "/quit"@ || entered == "/exit"@ <==> done.result == Ok::<
                SubmissionView,
                Fault,
            >(SubmissionView::Quit)
            &&& entered == "/quit"@ || entered == "/exit"@ ==> done.app == a
            &&& local ==> done.client == client && done.result is Ok && !(done.result->Ok_0 is Send)
        }),
{
    lemma_commands_differ();
    let entered = trimmed(a.input);
    if entered.len() == 0 {
        assert(a.step(read) is Nothing);
    }
}

/// A new thread, or the one that is named, is asked for while nothing is running and no answer is due;
/// other input that begins with a slash is no command.
pub proof fn threads_are_opened_while_idle(
    a: AppView,
    read: Reading,
    client: ClientView,
    options: OptionsView,
    logs: Seq<char>,
)
    requires
        !a.replay,
        a.pending.len() == 0,
    ensures
        ({
            let entered = trimmed(a.input);
            let done = a.submitted(read, client, options, logs);
            let idle = a.turn is None && !a.starting_turn;
            let unknown = AppView {
                conversation: a.conversation.noticed(
                    "Unknown or unavailable command. Use /help. Interrupt an active turn before /new or /resume."@,
                ),
                input: Seq::empty(),
                cursor: 0,
                ..a
            };
            &&& entered == "/new"@ && idle ==> done.app == a && done.result == match opening(
                client,
                options,
                None,
                Origin::New,
            ) {
                Ok(outgoing) => Ok::<SubmissionView, Fault>(SubmissionView::Send(outgoing)),
                Err(fault) => Err::<SubmissionView, Fault>(fault),
            }
            &&& "/resume "@.is_prefix_of(entered) && idle ==> done.app == a && done.result
                == match opening(
                client,
                options,
                Some(trimmed(strip_all(entered, "/resume "@))),
                Origin::Resume,
            ) {
                Ok(outgoing) => Ok::<SubmissionView, Fault>(SubmissionView::Send(outgoing)),
                Err(fault) => Err::<SubmissionView, Fault>(fault),
            }
            &&& (entered == "/new"@ || "/resume "@.is_prefix_of(entered)) && idle ==> done.client
                == client.after_request()
            &&& (entered == "/new"@ || "/resume "@.is_prefix_of(entered)) && !idle ==> done.app
                == unknown && done.client == client && done.result->Ok_0 is Done
            &&& !is_local(entered) && entered[0] == '/' && entered != "/new"@
                && !"/resume "@.is_prefix_of(entered) ==> done.app == unknown && done.client
                == client && done.result == Ok::<SubmissionView, Fault>(SubmissionView::Done)
        }),
{
    lemma_commands_differ();
    reveal_strlit("/resume ");
    reveal_strlit("/");
    let entered = trimmed(a.input);
    if "/resume "@.is_prefix_of(entered) {
        assert(entered.subrange(0, 8) == "/resume "@);
        assert(entered[1] == "/resume "@[1] && entered[0] == "/resume "@[0]);
        assert("/"@ =~= entered.subrange(0, 1));
    }
    if entered.len() > 0 && entered[0] == '/' {
        assert("/"@ =~= entered.subrange(0, 1));
    }
    if entered == "/new"@ {
        assert("/"@ =~= entered.subrange(0, 1));
        if "/resume "@.is_prefix_of(entered) {
            assert(entered.len() >= 8);
        }
    }
}

/// Before there is a thread, and while a turn is running, a message of the user stays in the input box
/// and nothing is written; the user is told why.
pub proof fn messages_wait_for_their_turn(
    a: AppView,
    read: Reading,
    client: ClientView,
    options: OptionsView,
    logs: Seq<char>,
)
    requires
        !a.replay,
        a.pending.len() == 0,
        trimmed(a.input).len() > 0,
        trimmed(a.input)[0] != '/',
        a.turn is Some || a.starting_turn || a.thread is None,
    ensures
        a.submitted(read, client, options, logs).client == client,
        a.submitted(read, client, options, logs).result == Ok::<SubmissionView, Fault>(
            SubmissionView::Done,
        ),
        a.submitted(read, client, options, logs).app == (AppView {
            conversation: a.conversation.noticed(
                if a.turn is Some || a.starting_turn {
                    "A turn is running. Ctrl+C interrupts it; your next message stays in the input box."@
                } else {
                    "Still connecting to Codex. Your message stays in the input box."@
                },
            ),
            ..a
        }),
{
    lemma_no_command(trimmed(a.input));
}

/// In a replay everything but the commands that need no server is refused, and the user is told so.
pub proof fn a_replay_refuses_input(
    a: AppView,
    read: Reading,
    client: ClientView,
    options: OptionsView,
    logs: Seq<char>,
)
    requires
        a.replay,
        !is_local(trimmed(a.input)),
    ensures
        a.submitted(read, client, options, logs).app == (AppView {
            conversation: a.conversation.noticed(
                "Replay is read-only. Use /show, /hide, or /quit."@,
            ),
            input: Seq::empty(),
            cursor: 0,
            ..a
        }),
        a.submitted(read, client, options, logs).result == Ok::<SubmissionView, Fault>(
            SubmissionView::Done,
        ),
        a.submitted(read, client, options, logs).client == client,
{
}

// ---------------------------------------------------------------------------
// What comes of the messages of the server, live and from a log
// ---------------------------------------------------------------------------

/// Whether a method is one of a request that the user can answer.
pub open spec fn is_answerable(method: JsonView) -> bool {
    method == JsonView::Text("item/commandExecution/requestApproval"@) || method == JsonView::Text(
        "item/fileChange/requestApproval"@,
    ) || method == JsonView::Text("item/permissions/requestApproval"@) || method == JsonView::Text(
        "item/tool/requestUserInput"@,
    ) || method == JsonView::Text("mcpServer/elicitation/request"@)
}

proof fn lemma_answerable(message: JsonView)
    ensures
        supported(text_or_empty(field(message, "method"@))) <==> is_answerable(
            field(message, "method"@),
        ),
{
    reveal_strlit("item/commandExecution/requestApproval");
    reveal_strlit("item/fileChange/requestApproval");
    reveal_strlit("item/permissions/requestApproval");
    reveal_strlit("item/tool/requestUserInput");
    reveal_strlit("mcpServer/elicitation/request");
    assert("item/commandExecution/requestApproval"@.len() > 0
        && "item/fileChange/requestApproval"@.len() > 0 && "item/permissions/requestApproval"@.len()
        > 0 && "item/tool/requestUserInput"@.len() > 0 && "mcpServer/elicitation/request"@.len()
        > 0);
}

/// What the user is asked is the request itself. Where it is about an item that is known, what the user
/// decides on is in it too, and nothing else of it is changed.
pub proof fn a_request_is_kept_as_it_came(a: AppView, message: JsonView, key: Seq<char>)
    ensures
        ({
            let params = field(message, "params"@);
            let details = a.conversation.details_of(
                text_or_empty(field(params, "turnId"@)),
                text_or_empty(field(params, "itemId"@)),
            );
            let kept = a.enriched(message);
            &&& details is None ==> kept == message
            &&& details is Some ==> field(field(kept, "params"@), "itemDetails"@) == JsonView::Text(
                details->Some_0,
            )
            &&& key != "params"@ ==> member(kept, key) == member(message, key)
            &&& key != "itemDetails"@ ==> member(field(kept, "params"@), key) == member(params, key)
        }),
{
}

/// A request that the user can answer is put behind those that wait already. The first one takes the
/// place of what the user was writing, which is kept: it is shown as a notice, at the end of the
/// conversation, with the input empty. Nothing is written in return.
pub proof fn a_request_waits_for_its_answer(a: AppView, message: JsonView, client: ClientView)
    requires
        member(message, "method"@) is Some,
        member(message, "id"@) is Some,
        is_answerable(field(message, "method"@)),
    ensures
        ({
            let b = a.after_message(message);
            &&& a.returned(message, client) == Ok::<Option<OutgoingView>, Trouble>(None)
            &&& b.pending == a.pending.push(a.enriched(message))
            &&& a.pending.len() > 0 ==> b == (AppView { pending: b.pending, ..a })
            &&& a.pending.len() == 0 ==> b == (AppView {
                pending: b.pending,
                draft: Some((a.input, a.cursor)),
                input: Seq::empty(),
                cursor: 0,
                conversation: a.conversation.noticed(escaped(description(a.enriched(message)))),
                view: ViewState { anchor: None, ..a.view },
                status: "Your response is required"@,
                ..a
            })
        }),
{
    lemma_answerable(message);
}

/// Any other request is refused by its ID, with the reason; the user is told so once that is written, and
/// nothing else changes.
pub proof fn other_requests_are_refused(a: AppView, message: JsonView, client: ClientView)
    requires
        member(message, "method"@) is Some,
        member(message, "id"@) is Some,
        !is_answerable(field(message, "method"@)),
        client.open,
    ensures
        ({
            let r = a.returned(message, client);
            let method = text_or_empty(field(message, "method"@));
            &&& a.after_message(message) == a
            &&& r is Ok && r->Ok_0 is Some
            &&& exists|sent: JsonView|
                {
                    &&& r->Ok_0->Some_0.frame == #[trigger] encoded(sent) + seq![10u8]
                    &&& sent is Object && sent->Object_0.dom() =~= set!["id"@, "error"@]
                    &&& field(sent, "id"@) == field(message, "id"@)
                    &&& field(field(sent, "error"@), "message"@) == JsonView::Text(
                        "Request is not supported by this version of codex-silent"@,
                    )
                }
            &&& a.after_delivery(r->Ok_0->Some_0.after) == (AppView {
                conversation: a.conversation.noticed(
                    "Unsupported request: "@ + method
                        + ". It was rejected. Update codex-silent or resume this thread in Codex."@,
                ),
                ..a
            })
        }),
{
    lemma_answerable(message);
    let why = "Request is not supported by this version of codex-silent"@;
    let sent = refusal(field(message, "id"@), why);
    a_message_says_what_is_meant(client, Seq::empty(), sent, field(message, "id"@), why);
    assert(carries(a.returned(message, client)->Ok_0->Some_0.frame, sent));
}

/// A reply that is an error ends what was waited for: the user is told the error, and a turn that was
/// about to start is not.
pub proof fn failed_requests_are_told(a: AppView, message: JsonView, id: u64, client: ClientView)
    requires
        member(message, "method"@) is None,
        field(message, "id"@) == JsonView::Num(NumberView::Pos(id)),
        member(message, "error"@) is Some,
    ensures
        ({
            let error = field(message, "error"@);
            let text = match field(error, "message"@) {
                JsonView::Text(text) => text,
                _ => compact_text(error),
            };
            &&& a.returned(message, client) == Ok::<Option<OutgoingView>, Trouble>(None)
            &&& a.after_message(message) == (AppView {
                waiting: a.waiting.remove(id),
                conversation: a.conversation.noticed(text),
                status: "Request failed"@,
                starting_turn: a.starting_turn && !(a.waiting.dom().contains(id) && a.waiting[id]
                    == Waiting::Turn),
                ..a
            })
        }),
{
}

/// A reply without an error is taken for the request that it answers, once, and no other: the first one is
/// acknowledged; one with a thread opens that thread and shows it; one to the start of a turn makes it
/// the running one, unless it has ended already. Any other changes nothing.
pub proof fn replies_are_taken_for_their_requests(
    a: AppView,
    message: JsonView,
    id: u64,
    client: ClientView,
)
    requires
        member(message, "method"@) is None,
        field(message, "id"@) == JsonView::Num(NumberView::Pos(id)),
        member(message, "error"@) is None,
        client.open,
    ensures
        ({
            let b = a.after_message(message);
            let r = a.returned(message, client);
            let rest = AppView { waiting: a.waiting.remove(id), ..a };
            let known = a.waiting.dom().contains(id);
            let thread = field(field(message, "result"@), "thread"@);
            let turn = field(field(message, "result"@), "turn"@);
            &&& known && a.waiting[id] == Waiting::Initialize ==> {
                &&& b == rest
                &&& r is Ok && r->Ok_0 is Some && r->Ok_0->Some_0.after == ThenView::Initialized
                &&& exists|sent: JsonView|
                    {
                        &&& r->Ok_0->Some_0.frame == #[trigger] encoded(sent) + seq![10u8]
                        &&& sent is Object && sent->Object_0.dom() =~= set!["method"@, "params"@]
                        &&& field(sent, "method"@) == JsonView::Text("initialized"@)
                        &&& field(sent, "params"@) is Object && field(
                            sent,
                            "params"@,
                        )->Object_0.dom() =~= Set::empty()
                    }
            }
            &&& known && a.waiting[id] == Waiting::Thread ==> match field(thread, "id"@) {
                JsonView::Text(name) => if name.len() > 0 {
                    &&& r == Ok::<Option<OutgoingView>, Trouble>(None)
                    &&& b == (AppView {
                        thread: Some(name),
                        conversation: a.conversation.restored(thread),
                        status: "Ready"@,
                        ..rest
                    })
                } else {
                    r == Err::<Option<OutgoingView>, Trouble>(Trouble::NoThread) && b == rest
                },
                _ => r == Err::<Option<OutgoingView>, Trouble>(Trouble::NoThread) && b == rest,
            }
            &&& known && a.waiting[id] == Waiting::Turn ==> {
                let started = field(turn, "status"@) == JsonView::Text("inProgress"@)
                    && a.finished_turn != text_of(field(turn, "id"@));
                &&& r == Ok::<Option<OutgoingView>, Trouble>(None)
                &&& b == (AppView {
                    starting_turn: false,
                    turn: if started {
                        Some(text_or_empty(field(turn, "id"@)))
                    } else {
                        a.turn
                    },
                    ..rest
                })
            }
            &&& !known || a.waiting[id] == Waiting::Interrupt ==> b == rest && r == Ok::<
                Option<OutgoingView>,
                Trouble,
            >(None)
        }),
{
    let empty = JsonView::Object(no_members());
    let sent = notification("initialized"@, empty);
    a_message_says_what_is_meant(client, "initialized"@, sent, JsonView::Null, Seq::empty());
    a_message_says_what_is_meant(client, "initialized"@, empty, JsonView::Null, Seq::empty());
    if a.waiting.dom().contains(id) && a.waiting[id] == Waiting::Initialize {
        assert(carries(a.returned(message, client)->Ok_0->Some_0.frame, sent));
    }
}

proof fn lemma_events_differ()
    ensures
        "turn/started"@.len() == 12,
        "turn/completed"@.len() == 14,
        "serverRequest/resolved"@.len() == 22,
{
    reveal_strlit("turn/started");
    reveal_strlit("turn/completed");
    reveal_strlit("serverRequest/resolved");
}

/// Whether a message is an event for a session: it has no ID that is a number, and is not about another
/// thread than the open one.
pub open spec fn is_event(a: AppView, message: JsonView) -> bool {
    &&& !(member(message, "method"@) is Some && member(message, "id"@) is Some)
    &&& unsigned_of(field(message, "id"@)) is None
    &&& match (a.thread, field(field(message, "params"@), "threadId"@)) {
        (Some(current), JsonView::Text(other)) => current == other,
        _ => true,
    }
}

/// An event changes the conversation as its message does. Besides, the start of a turn makes it the
/// running one, and nothing else but the end of a turn and the resolution of a request changes more.
pub proof fn events_change_the_conversation(a: AppView, message: JsonView, client: ClientView)
    requires
        is_event(a, message),
    ensures
        ({
            let method = field(message, "method"@);
            let params = field(message, "params"@);
            let b = a.after_message(message);
            let plain = AppView { conversation: a.conversation.after(message), ..a };
            &&& a.returned(message, client) == Ok::<Option<OutgoingView>, Trouble>(None)
            &&& method == JsonView::Text("turn/started"@) ==> b == (AppView {
                turn: Some(text_or_empty(field(field(params, "turn"@), "id"@))),
                starting_turn: false,
                status: "Working · Ctrl+C interrupt"@,
                ..plain
            })
            &&& method == JsonView::Text("turn/completed"@) ==> b == plain.after_turn(
                field(params, "turn"@),
            )
            &&& method == JsonView::Text("serverRequest/resolved"@) ==> b == plain.after_resolution(
                field(params, "requestId"@),
            )
            &&& method != JsonView::Text("turn/started"@) && method != JsonView::Text(
                "turn/completed"@,
            ) && method != JsonView::Text("serverRequest/resolved"@) ==> b == plain
        }),
{
    lemma_events_differ();
}

/// An event of another thread than the open one changes nothing, live or in a replay.
pub proof fn events_of_other_threads_change_nothing(
    a: AppView,
    message: JsonView,
    client: ClientView,
    other: Seq<char>,
)
    requires
        !(member(message, "method"@) is Some && member(message, "id"@) is Some),
        unsigned_of(field(message, "id"@)) is None,
        a.thread is Some,
        field(field(message, "params"@), "threadId"@) == JsonView::Text(other),
        a.thread != Some(other),
    ensures
        a.after_message(message) == a,
        a.returned(message, client) == Ok::<Option<OutgoingView>, Trouble>(None),
        !(field(field(field(message, "result"@), "thread"@), "id"@) is Text) ==> a.replayed(message)
            == a,
{
}

/// A turn that has ended is not running any more, and its outcome is the status. Requests that were open
/// are void: what the user was writing before the first of them comes back. An error of the turn is told.
pub proof fn a_turn_ends(a: AppView, turn: JsonView)
    ensures
        ({
            let b = a.after_turn(turn);
            let error = field(turn, "error"@);
            let typed = if a.pending.len() == 0 {
                (a.input, a.cursor)
            } else {
                match a.draft {
                    Some(draft) => draft,
                    None => (Seq::<char>::empty(), 0nat),
                }
            };
            b == (AppView {
                finished_turn: match field(turn, "id"@) {
                    JsonView::Text(id) => Some(id),
                    _ => None,
                },
                turn: None,
                starting_turn: false,
                pending: Seq::empty(),
                draft: if a.pending.len() == 0 {
                    a.draft
                } else {
                    None
                },
                input: typed.0,
                cursor: typed.1,
                status: text_or_empty(field(turn, "status"@)),
                conversation: if error is Null {
                    a.conversation
                } else {
                    a.conversation.noticed(
                        match field(error, "message"@) {
                            JsonView::Text(text) => text,
                            _ => compact_text(error),
                        },
                    )
                },
                ..a
            })
        }),
{
    if a.pending.len() == 0 {
        assert(a.pending =~= Seq::empty());
    }
}

/// A request that was resolved elsewhere leaves the queue, and no other does; those that stay keep their
/// order.
pub proof fn resolved_requests_leave_the_queue(a: AppView, id: JsonView, request: JsonView)
    ensures
        a.pending.len() == 0 ==> a.unresolved(id).len() == 0,
        ({
            let more = AppView { pending: a.pending.push(request), ..a };
            more.unresolved(id) == if json_eq(field(request, "id"@), id) {
                a.unresolved(id)
            } else {
                a.unresolved(id).push(request)
            }
        }),
{
    reveal(Seq::filter);
    assert(a.pending.push(request).drop_last() =~= a.pending);
}

/// If the request that was resolved is the one that the user was asked, the next one is asked instead, with
/// the input empty, or what the user was writing comes back. Otherwise nothing but the queue changes.
pub proof fn the_next_request_follows_a_resolved_one(a: AppView, id: JsonView)
    ensures
        ({
            let left = a.unresolved(id);
            let b = a.after_resolution(id);
            let s = AppView { pending: left, ..a };
            if a.pending.len() > 0 && json_eq(field(a.pending[0], "id"@), id) {
                b == s.presented()
            } else {
                b == s
            }
        }),
{
}

/// Presenting the front of the queue shows that request as a notice, at the end of the conversation, with
/// the input empty. Where no request is left, what the user was writing is back, and the status says
/// whether a turn is running.
pub proof fn the_front_of_the_queue_is_presented(a: AppView)
    ensures
        a.pending.len() > 0 ==> a.presented() == (AppView {
            input: Seq::empty(),
            cursor: 0,
            conversation: a.conversation.noticed(escaped(description(a.pending[0]))),
            view: ViewState { anchor: None, ..a.view },
            status: "Your response is required"@,
            ..a
        }),
        a.pending.len() == 0 ==> a.presented() == (AppView {
            input: match a.draft {
                Some(draft) => draft.0,
                None => Seq::empty(),
            },
            cursor: match a.draft {
                Some(draft) => draft.1,
                None => 0,
            },
            draft: None,
            status: if a.turn is Some || a.starting_turn {
                "Working"@
            } else {
                "Ready"@
            },
            ..a
        }),
{
}

/// What follows once a line is written. An answered request leaves the queue, and the next one is
/// presented; a thread or a turn that was asked for is waited for under its ID, and what was entered for
/// it is gone; an interruption is waited for.
pub proof fn a_written_line_has_its_consequence(a: AppView, id: u64, origin: Origin)
    ensures
        ({
            let b = a.after_delivery(ThenView::Opening(id, origin));
            let waiting = a.waiting.insert(id, Waiting::Thread);
            &&& origin == Origin::Startup ==> b == (AppView {
                waiting,
                thread: None,
                status: "Opening conversation"@,
                ..a
            })
            &&& origin != Origin::Startup ==> b == (AppView {
                waiting,
                thread: None,
                status: "Opening conversation"@,
                input: Seq::empty(),
                cursor: 0,
                conversation: if origin == Origin::New {
                    a.conversation.noticed(
                        "Starting a new conversation. Earlier answers remain visible here."@,
                    )
                } else {
                    a.conversation
                },
                ..a
            })
        }),
        a.after_delivery(ThenView::Turn(id)) == (AppView {
            waiting: a.waiting.insert(id, Waiting::Turn),
            starting_turn: true,
            status: "Working · Ctrl+C interrupt"@,
            view: ViewState { anchor: None, ..a.view },
            input: Seq::empty(),
            cursor: 0,
            ..a
        }),
        a.after_delivery(ThenView::Interrupting(id)) == (AppView {
            waiting: a.waiting.insert(id, Waiting::Interrupt),
            status: "Interrupting"@,
            ..a
        }),
        a.after_delivery(ThenView::Initialized) == a,
        a.pending.len() > 0 ==> a.after_delivery(ThenView::Answered) == (AppView {
            pending: a.pending.skip(1),
            conversation: a.conversation.noticed("Response sent."@),
            ..a
        }).presented(),
{
}

/// A session begins with nothing in it, showing activity only if that was asked for.
pub proof fn a_session_begins_empty(show: bool, replay: bool, id: u64)
    ensures
        ({
            let a = new_session(show, replay);
            &&& a.conversation.entries.len() == 0
            &&& a.conversation.index.dom() =~= Set::empty()
            &&& a.view.expanded == show && a.view.anchor is None && a.view.cache is None
            &&& a.input.len() == 0 && a.cursor == 0
            &&& a.pending.len() == 0 && a.draft is None
            &&& a.thread is None && a.turn is None && !a.starting_turn && a.finished_turn is None
            &&& a.waiting.dom() =~= Set::empty()
            &&& a.replay == replay
            &&& a.status == if replay {
                "Replay"@
            } else {
                "Connecting"@
            }
            &&& a.begun(id) == (AppView {
                waiting: Map::empty().insert(id, Waiting::Initialize),
                conversation: a.conversation.noticed(
                    "Tool activity is hidden. Ctrl+O shows or hides it. /help lists commands."@,
                ),
                ..a
            })
        }),
{
}

/// Without a server nothing runs, nothing waits for an answer and nothing is waited for; the user is told
/// why and where to look, at the end of the conversation. What was entered stays.
pub proof fn a_lost_server_is_told(a: AppView, stderr: Seq<char>, reason: Seq<char>)
    ensures
        a.cut_off(stderr, reason) == (AppView {
            turn: None,
            starting_turn: false,
            pending: Seq::empty(),
            draft: None,
            waiting: Map::empty(),
            status: "Disconnected · /quit to exit"@,
            conversation: a.conversation.noticed(
                reason + "\nCodex stderr: "@ + stderr
                    + "\nUse /logs to locate this session or /quit to exit."@,
            ),
            view: ViewState { anchor: None, ..a.view },
            ..a
        }),
{
}

/// A server that has not opened a thread a minute after it was connected is overdue, and not before.
pub proof fn a_minute_is_left_to_connect(a: AppView, connected: bool, nanoseconds: int)
    ensures
        a.overdue(connected, nanoseconds) <==> connected && a.thread is None && nanoseconds > 60
            * 1_000_000_000,
{
}

/// A reply in a log that carries a thread restores that thread, as it was restored when the reply came:
/// the conversation afterwards is the earlier one with the completions of all items of its turns, in
/// order, and the same as in the session that waited for that reply.
pub proof fn a_replayed_thread_is_restored(
    a: AppView,
    live: AppView,
    message: JsonView,
    name: Seq<char>,
    id: u64,
)
    requires
        field(field(field(message, "result"@), "thread"@), "id"@) == JsonView::Text(name),
    ensures
        ({
            let thread = field(field(message, "result"@), "thread"@);
            let b = a.replayed(message);
            &&& b == (AppView { thread: Some(name), conversation: b.conversation, ..a })
            &&& b.conversation == match field(thread, "turns"@) {
                JsonView::Array(turns) => after_all(a.conversation, completions(turns)),
                _ => a.conversation,
            }
            &&& live.conversation == a.conversation && name.len() > 0 && field(message, "id"@)
                == JsonView::Num(NumberView::Pos(id)) && member(message, "method"@) is None
                && member(message, "error"@) is None && live.waiting.dom().contains(id)
                && live.waiting[id] == Waiting::Thread ==> live.after_message(message).conversation
                == b.conversation && live.after_message(message).thread == b.thread
        }),
{
    resuming_displays_as_live(
        a.conversation,
        field(field(message, "result"@), "thread"@),
    );
}

/// Any other message in a log is replayed as what it was when it came: a request is shown as the notice
/// that it was, and an event changes the conversation as it did, unless it is of another thread.
pub proof fn a_replayed_message_is_shown(a: AppView, message: JsonView)
    requires
        !(field(field(field(message, "result"@), "thread"@), "id"@) is Text),
    ensures
        ({
            let b = a.replayed(message);
            let asked = member(message, "method"@) is Some && member(message, "id"@) is Some;
            &&& b == (AppView { conversation: b.conversation, ..a })
            &&& asked && is_answerable(field(message, "method"@)) ==> b.conversation
                == a.conversation.noticed(escaped(description(a.enriched(message))))
            &&& asked && !is_answerable(field(message, "method"@)) ==> b.conversation
                == a.conversation.noticed(
                "Unsupported request: "@ + text_or_empty(field(message, "method"@))
                    + ". It was rejected. Update codex-silent or resume this thread in Codex."@,
            )
            &&& is_event(a, message) ==> b.conversation == a.conversation.after(message)
        }),
{
    lemma_answerable(message);
}

/// A turn is running from when it is asked for until it has ended.
pub proof fn a_session_is_busy_during_a_turn(a: AppView)
    ensures
        a.busy() <==> a.starting_turn || a.turn is Some,
{
}

/// What is said where a line could not be written: what it was for and why, and that it will not be
/// written again.
pub proof fn failures_are_told(error: Seq<char>)
    ensures
        failure(Purpose::Interrupt, error) == "Could not send interrupt: "@ + error
            + ". Delivery is unknown; it will not be retried."@,
        failure(Purpose::Request, error) == "Could not send request: "@ + error
            + ". Delivery is unknown; it will not be retried."@,
{
}

/// Once the transport is shut down, whatever would have been written is told as that fault instead: an answer,
/// a turn, a thread, an interruption, a refusal and the acknowledgement of the first reply. The session is left
/// as it was.
pub proof fn a_closed_transport_is_a_fault(
    a: AppView,
    read: Reading,
    message: JsonView,
    id: u64,
    client: ClientView,
    options: OptionsView,
    logs: Seq<char>,
)
    requires
        !client.open,
        client.next_id < u64::MAX,
    ensures
        ({
            let done = a.submitted(read, client, options, logs);
            let step = a.step(read);
            &&& step is Reply || step is New || step is Resume || step is Turn ==> done.app == a
                && done.result == Err::<SubmissionView, Fault>(Fault::ShutDown)
        }),
        a.thread is Some && a.turn is Some ==> a.interrupted(client).app == a && a.interrupted(
            client,
        ).result == Err::<SubmissionView, Fault>(Fault::ShutDown),
        member(message, "method"@) is Some && member(message, "id"@) is Some && !is_answerable(
            field(message, "method"@),
        ) ==> a.returned(message, client) == Err::<Option<OutgoingView>, Trouble>(
            Trouble::Transport(Fault::ShutDown),
        ),
        member(message, "method"@) is None && field(message, "id"@) == JsonView::Num(
            NumberView::Pos(id),
        ) && member(message, "error"@) is None && a.waiting.dom().contains(id) && a.waiting[id]
            == Waiting::Initialize ==> a.returned(message, client) == Err::<
            Option<OutgoingView>,
            Trouble,
        >(Trouble::Transport(Fault::ShutDown)),
        following(ThenView::Initialized, client, options) == Err::<Option<OutgoingView>, Fault>(
            Fault::ShutDown,
        ),
{
    lemma_answerable(message);
}

} // verus!
