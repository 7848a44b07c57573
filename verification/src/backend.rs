//! Unfiltered JSON transport to a Codex app-server process: what is written to it, what is read
//! from it, and how it is ended.
use crate::codec::{decode, decoded, encode, encoded, exact, reading, Reading};
use crate::json::{field, no_members, Json, JsonView, NumberView, Object};
use crate::text::texts;
use vstd::prelude::*;
use vstd::string::*;
use vstd::utf8::*;

verus! {

// ---------------------------------------------------------------------------
// Writing
// ---------------------------------------------------------------------------

/// Why a message is not written.
#[derive(Clone, Copy, Debug, PartialEq, Eq, Structural)]
pub enum Fault {
    Exhausted,
    ShutDown,
}

/// What is said of a fault.
pub open spec fn fault_text(fault: Fault) -> Seq<char> {
    match fault {
        Fault::Exhausted => "Codex request IDs exhausted"@,
        Fault::ShutDown => "Codex transport is shut down"@,
    }
}

impl Fault {
    /// What is said of the fault.
    pub fn text(&self) -> (r: &'static str)
        ensures
            r@ == fault_text(*self),
    {
        match self {
            Fault::Exhausted => "Codex request IDs exhausted",
            Fault::ShutDown => "Codex transport is shut down",
        }
    }
}

/// The client's end of the transport.
pub struct Client {
    open: bool,
    running: bool,
    next_id: u64,
}

/// What a client holds: whether it can still write, whether it still has a process to end, and the
/// ID of its next request.
#[verifier::ext_equal]
pub struct ClientView {
    pub open: bool,
    pub running: bool,
    pub next_id: u64,
}

/// A message as it is written: on a line of its own.
pub open spec fn frame(message: JsonView) -> Seq<u8> {
    encoded(message).push(10u8)
}

/// Whether bytes are a single line, with its line feed.
pub open spec fn one_line(bytes: Seq<u8>) -> bool {
    bytes.len() > 0 && bytes.last() == 10u8 && !bytes.drop_last().contains(10u8)
}

/// A request.
pub open spec fn request_message(id: u64, method: Seq<char>, params: JsonView) -> JsonView {
    JsonView::Object(
        no_members().insert("id"@, JsonView::Num(NumberView::Pos(id))).insert(
            "method"@,
            JsonView::Text(method),
        ).insert("params"@, params),
    )
}

/// A notification.
pub open spec fn notification(method: Seq<char>, params: JsonView) -> JsonView {
    JsonView::Object(
        no_members().insert("method"@, JsonView::Text(method)).insert("params"@, params),
    )
}

/// The answer to a request.
pub open spec fn reply_message(id: JsonView, result: JsonView) -> JsonView {
    JsonView::Object(no_members().insert("id"@, id).insert("result"@, result))
}

/// The refusal of a request.
pub open spec fn refusal(id: JsonView, message: Seq<char>) -> JsonView {
    JsonView::Object(
        no_members().insert("id"@, id).insert(
            "error"@,
            JsonView::Object(
                no_members().insert("code"@, JsonView::Num(NumberView::Neg((-32000) as i64))).insert(
                    "message"@,
                    JsonView::Text(message),
                ),
            ),
        ),
    )
}

/// A message on a line of its own, as it is written to the server and to a log: one line, however many
/// the texts in it have.
pub fn line_of(message: &Json) -> (r: Vec<u8>)
    ensures
        r@ == frame(message@),
        one_line(r@),
{
    let mut bytes = encode(message);
    let ghost line = bytes@;
    bytes.push(10);
    assert(bytes@.drop_last() =~= line);
    bytes
}

impl ClientView {
    /// A message as it is written, unless nothing can be written any more.
    pub open spec fn written(self, message: JsonView) -> Result<Seq<u8>, Fault> {
        if self.open {
            Ok(frame(message))
        } else {
            Err(Fault::ShutDown)
        }
    }

    /// A request under the next ID, as it is written.
    pub open spec fn requested(self, method: Seq<char>, params: JsonView) -> Result<
        (u64, Seq<u8>),
        Fault,
    > {
        if self.next_id == u64::MAX {
            Err(Fault::Exhausted)
        } else if self.open {
            Ok((self.next_id, frame(request_message(self.next_id, method, params))))
        } else {
            Err(Fault::ShutDown)
        }
    }

    /// After a request has taken its ID. The ID is used up also where nothing can be written.
    pub open spec fn after_request(self) -> ClientView {
        if self.next_id == u64::MAX {
            self
        } else {
            ClientView { next_id: (self.next_id + 1) as u64, ..self }
        }
    }

    /// Shut down.
    pub open spec fn closed(self) -> ClientView {
        ClientView { open: false, running: false, ..self }
    }
}

/// The bytes of a message that was written, or the fault.
pub open spec fn bytes_view(r: Result<Vec<u8>, Fault>) -> Result<Seq<u8>, Fault> {
    match r {
        Ok(bytes) => Ok(bytes@),
        Err(fault) => Err(fault),
    }
}

impl Client {
    /// What the client holds.
    pub closed spec fn view(&self) -> ClientView {
        ClientView { open: self.open, running: self.running, next_id: self.next_id }
    }

    /// Starts the transport. The caller owns the initialize/initialized handshake.
    pub fn new() -> (r: Client)
        ensures
            r@ == (ClientView { open: true, running: true, next_id: 1 }),
    {
        Client { open: true, running: true, next_id: 1 }
    }

    /// A request as it is written, with its ID.
    pub fn request(&mut self, method: &str, params: Json) -> (r: Result<(u64, Vec<u8>), Fault>)
        ensures
            final(self)@ == old(self)@.after_request(),
            match r {
                Ok(sent) => old(self)@.requested(method@, params@) == Ok::<(u64, Seq<u8>), Fault>(
                    (sent.0, sent.1@),
                ),
                Err(fault) => old(self)@.requested(method@, params@) == Err::<
                    (u64, Seq<u8>),
                    Fault,
                >(fault),
            },
            r is Ok ==> one_line(r->Ok_0.1@),
    {
        let id = self.next_id;
        if id == u64::MAX {
            return Err(Fault::Exhausted);
        }
        self.next_id = id + 1;
        let message = Json::Object(
            Object::new().with("id", Json::from_u64(id)).with("method", Json::text(method)).with(
                "params",
                params,
            ),
        );
        match self.write_message(message) {
            Ok(bytes) => Ok((id, bytes)),
            Err(fault) => Err(fault),
        }
    }

    /// Sends protocol notifications, including the initialized acknowledgement.
    pub fn notify(&mut self, method: &str, params: Json) -> (r: Result<Vec<u8>, Fault>)
        ensures
            final(self)@ == old(self)@,
            bytes_view(r) == old(self)@.written(notification(method@, params@)),
            r is Ok ==> one_line(r->Ok_0@),
    {
        let message = Json::Object(
            Object::new().with("method", Json::text(method)).with("params", params),
        );
        self.write_message(message)
    }

    /// The answer to a request as it is written.
    pub fn reply(&mut self, id: Json, result: Json) -> (r: Result<Vec<u8>, Fault>)
        ensures
            final(self)@ == old(self)@,
            bytes_view(r) == old(self)@.written(reply_message(id@, result@)),
            r is Ok ==> one_line(r->Ok_0@),
    {
        let message = Json::Object(Object::new().with("id", id).with("result", result));
        self.write_message(message)
    }

    /// The refusal of a request as it is written.
    pub fn reply_error(&mut self, id: Json, message: &str) -> (r: Result<Vec<u8>, Fault>)
        ensures
            final(self)@ == old(self)@,
            bytes_view(r) == old(self)@.written(refusal(id@, message@)),
            r is Ok ==> one_line(r->Ok_0@),
    {
        let error = Json::Object(
            Object::new().with("code", Json::from_i64(-32000)).with("message", Json::text(message)),
        );
        let message = Json::Object(Object::new().with("id", id).with("error", error));
        self.write_message(message)
    }

    /// A message as it is written.
    fn write_message(&self, message: Json) -> (r: Result<Vec<u8>, Fault>)
        ensures
            bytes_view(r) == self@.written(message@),
            r is Ok ==> one_line(r->Ok_0@),
    {
        if !self.open {
            return Err(Fault::ShutDown);
        }
        Ok(line_of(&message))
    }

    /// Closes the transport. The result is whether a process is left to be ended: once it was, it is
    /// not ended again.
    pub fn shutdown(&mut self) -> (r: bool)
        ensures
            final(self)@ == old(self)@.closed(),
            r == old(self)@.running,
    {
        let r = self.running;
        self.open = false;
        self.running = false;
        r
    }
}

/// Every request has an ID of its own: the IDs of two requests in a row differ by one.
pub proof fn request_ids_count_up(c: ClientView, method: Seq<char>, params: JsonView)
    requires
        c.requested(method, params) is Ok,
    ensures
        c.requested(method, params)->Ok_0.0 == c.next_id,
        c.after_request().next_id == c.next_id + 1,
{
}

/// Once the transport is shut down nothing is written any more, and shutting it down again changes
/// nothing.
pub proof fn shutdown_is_final(c: ClientView, message: JsonView, method: Seq<char>)
    ensures
        c.closed().written(message) == Err::<Seq<u8>, Fault>(Fault::ShutDown),
        c.closed().requested(method, message) == Err::<(u64, Seq<u8>), Fault>(
            if c.next_id == u64::MAX {
                Fault::Exhausted
            } else {
                Fault::ShutDown
            },
        ),
        !c.closed().after_request().open,
        c.closed().closed() == c.closed(),
        !c.closed().running,
        c.closed().next_id == c.next_id,
{
}

// ---------------------------------------------------------------------------
// Starting and ending the process
// ---------------------------------------------------------------------------

/// The settings of a configuration as arguments.
pub open spec fn setting_arguments(config: Seq<Seq<char>>) -> Seq<Seq<char>>
    decreases config.len(),
{
    if config.len() == 0 {
        Seq::empty()
    } else {
        setting_arguments(config.drop_last()).push("-c"@).push(config.last())
    }
}

/// The arguments with which the server is started.
pub open spec fn server_arguments(config: Seq<Seq<char>>) -> Seq<Seq<char>> {
    seq!["app-server"@, "--listen"@, "stdio://"@] + setting_arguments(config)
}

/// The arguments with which the server is started.
pub fn launch_arguments(config: &Vec<String>) -> (r: Vec<String>)
    ensures
        texts(r@) == server_arguments(texts(config@)),
{
    let mut arguments: Vec<String> = Vec::new();
    arguments.push("app-server".to_owned());
    arguments.push("--listen".to_owned());
    arguments.push("stdio://".to_owned());
    let ghost fixed = texts(arguments@);
    let ghost all = texts(config@);
    assert(fixed =~= seq!["app-server"@, "--listen"@, "stdio://"@]);
    assert(all.take(0) =~= Seq::empty());
    assert(fixed + Seq::<Seq<char>>::empty() =~= fixed);
    for i in 0..config.len()
        invariant
            all == texts(config@),
            texts(arguments@) == fixed + setting_arguments(all.take(i as int)),
    {
        let ghost before = texts(arguments@);
        arguments.push("-c".to_owned());
        arguments.push(config[i].clone());
        proof {
            assert(all.take(i + 1).drop_last() =~= all.take(i as int));
            assert(all.take(i + 1).last() == config@[i as int]@);
            assert(texts(arguments@) =~= before.push("-c"@).push(config@[i as int]@));
            assert(texts(arguments@) =~= fixed + setting_arguments(all.take(i + 1)));
        }
    }
    assert(all.take(all.len() as int) =~= all);
    arguments
}

/// What is said where the server cannot be started.
pub open spec fn launch_complaint(codex: Seq<char>, error: Seq<char>, cwd: Seq<char>) -> Seq<char> {
    "Could not start Codex executable '"@ + codex + "': "@ + error
        + ". Verify Codex is installed, its executable path is correct, and working directory '"@
        + cwd + "' exists."@
}

/// What is said where the server cannot be started.
pub fn launch_failure(codex: &str, error: &str, cwd: &str) -> (r: String)
    ensures
        r@ == launch_complaint(codex@, error@, cwd@),
{
    let mut text = "Could not start Codex executable '".to_owned();
    text.append(codex);
    text.append("': ");
    text.append(error);
    text.append(
        ". Verify Codex is installed, its executable path is correct, and working directory '",
    );
    text.append(cwd);
    text.append("' exists.");
    text
}

/// How long to wait between looks at a process or at a pipe, in milliseconds.
pub const POLL_INTERVAL_MS: u64 = 10;

/// How long the server has to exit once its input is closed, in milliseconds.
pub const EOF_GRACE_MS: u64 = 100;

/// How long the server has to exit once it was told to, in milliseconds.
pub const TERM_GRACE_MS: u64 = 250;

/// How long the server may take to be gone once it was killed, in milliseconds.
pub const KILL_GRACE_MS: u64 = 1000;

/// A step in ending the server.
#[derive(Clone, Copy, Debug, PartialEq, Eq, Structural)]
pub enum Act {
    /// Close the input of the server.
    CloseInput,
    /// Wait for a number of milliseconds.
    Sleep(u64),
    /// Tell a process group to terminate.
    Terminate(i32),
    /// Kill a process group.
    KillGroup(i32),
    /// Wait for a number of milliseconds for the process to exit, and kill it alone if it does not.
    Grace(u64),
    /// Kill the process alone.
    KillProcess,
    /// Wait for a number of milliseconds for the process to exit, and leave it to a waiter if it does
    /// not. Its ID is no longer its own afterwards.
    Reap(u64),
    /// Tell the reader to stop.
    StopReader,
    /// Wait for a number of milliseconds for the reader to stop.
    Join(u64),
}

/// The steps that end the process of the server. On Unix it is known by its process ID and its whole
/// group is ended, unless that ID would stand for more than one group.
pub open spec fn process_ending(pid: Option<u32>) -> Seq<Act> {
    match pid {
        Some(pid) => if pid > 1 {
            seq![
                Act::Sleep(EOF_GRACE_MS),
                Act::Terminate((-(pid as int)) as i32),
                Act::Sleep(TERM_GRACE_MS),
                Act::KillGroup((-(pid as int)) as i32),
            ]
        } else {
            seq![Act::Sleep(EOF_GRACE_MS), Act::KillProcess]
        },
        None => seq![Act::Grace(EOF_GRACE_MS)],
    }
}

/// The steps that end the server.
pub open spec fn ending(pid: Option<u32>) -> Seq<Act> {
    seq![Act::CloseInput] + process_ending(pid) + seq![
        Act::Reap(KILL_GRACE_MS),
        Act::StopReader,
        Act::Join(EOF_GRACE_MS),
    ]
}

/// The steps that end the server, of which the process ID is given on Unix.
pub fn shutdown_plan(pid: Option<u32>) -> (r: Vec<Act>)
    requires
        pid is Some ==> pid->Some_0 <= i32::MAX,
    ensures
        r@ == ending(pid),
{
    let mut plan: Vec<Act> = Vec::new();
    plan.push(Act::CloseInput);
    match pid {
        Some(pid) => {
            let group: i32 = pid as i32;
            plan.push(Act::Sleep(EOF_GRACE_MS));
            if group > 1 {
                plan.push(Act::Terminate(-group));
                plan.push(Act::Sleep(TERM_GRACE_MS));
                plan.push(Act::KillGroup(-group));
            } else {
                plan.push(Act::KillProcess);
            }
        },
        None => {
            plan.push(Act::Grace(EOF_GRACE_MS));
        },
    }
    plan.push(Act::Reap(KILL_GRACE_MS));
    plan.push(Act::StopReader);
    plan.push(Act::Join(EOF_GRACE_MS));
    assert(plan@ =~= ending(pid));
    plan
}

/// How long a step can take, in milliseconds. Where it looks at something in intervals, it can take
/// one interval more than it has.
pub open spec fn longest(act: Act) -> nat {
    match act {
        Act::Sleep(ms) => ms as nat,
        Act::Grace(ms) => (ms + POLL_INTERVAL_MS) as nat,
        Act::Reap(ms) => (ms + POLL_INTERVAL_MS) as nat,
        Act::Join(ms) => (ms + POLL_INTERVAL_MS) as nat,
        _ => 0,
    }
}

/// How long a sequence of steps can wait, in milliseconds.
pub open spec fn waited(plan: Seq<Act>) -> nat
    decreases plan.len(),
{
    if plan.len() == 0 {
        0
    } else {
        waited(plan.drop_last()) + longest(plan.last())
    }
}

/// Whether a step sends a signal to the process or to its group.
pub open spec fn signals(act: Act) -> bool {
    act is Terminate || act is KillGroup || act is Grace || act is KillProcess
}

/// The group that a step sends a signal to.
pub open spec fn group_of(act: Act) -> Option<i32> {
    match act {
        Act::Terminate(group) => Some(group),
        Act::KillGroup(group) => Some(group),
        _ => None,
    }
}

/// Whether a step kills the process or its group, if they are still there.
pub open spec fn kills(act: Act) -> bool {
    act is KillGroup || act is Grace || act is KillProcess
}

/// Ending the server takes less than three seconds. Its input is closed before any signal is sent. A
/// kill is the last signal, and it is sent before the process is reaped, while its ID is still its
/// own. The signals go to its own group, never to more. The reader is told to stop once the process
/// was ended.
pub proof fn ending_is_bounded_and_sure(pid: Option<u32>)
    requires
        pid is Some ==> pid->Some_0 <= i32::MAX,
    ensures
        waited(ending(pid)) < 3000,
        ending(pid).len() > 4,
        ending(pid)[0] == Act::CloseInput,
        forall|i: int|
            0 <= i < ending(pid).len() && signals(#[trigger] ending(pid)[i]) ==> 0 < i
                <= ending(pid).len() - 4,
        kills(ending(pid)[ending(pid).len() - 4]),
        ending(pid)[ending(pid).len() - 3] == Act::Reap(KILL_GRACE_MS),
        ending(pid)[ending(pid).len() - 2] == Act::StopReader,
        ending(pid).last() == Act::Join(EOF_GRACE_MS),
        forall|i: int|
            0 <= i < ending(pid).len() ==> match group_of(#[trigger] ending(pid)[i]) {
                Some(group) => pid is Some && group == -(pid->Some_0 as int) && group < -1,
                None => true,
            },
        pid is Some && pid->Some_0 > 1 ==> ending(pid)[ending(pid).len() - 4] == Act::KillGroup(
            (-(pid->Some_0 as int)) as i32,
        ),
{
    reveal_with_fuel(waited, 9);
}

/// The server and its group, as far as the operating system does what it is told.
pub struct Server {
    pub input_open: bool,
    pub leader_alive: bool,
    pub children_alive: bool,
    pub reaped: bool,
    pub reader_told: bool,
}

impl Server {
    /// After a step. A process may ignore that its input is closed and that it is told to terminate, but
    /// not that it is killed, and only one that is dead is reaped.
    pub open spec fn after(self, act: Act) -> Server {
        match act {
            Act::CloseInput => Server { input_open: false, ..self },
            Act::KillGroup(_) => Server { leader_alive: false, children_alive: false, ..self },
            Act::Grace(_) => Server { leader_alive: false, ..self },
            Act::KillProcess => Server { leader_alive: false, ..self },
            Act::Reap(_) => Server { reaped: self.reaped || !self.leader_alive, ..self },
            Act::StopReader => Server { reader_told: true, ..self },
            _ => self,
        }
    }

    /// After a sequence of steps.
    pub open spec fn after_plan(self, plan: Seq<Act>) -> Server
        decreases plan.len(),
    {
        if plan.len() == 0 {
            self
        } else {
            self.after_plan(plan.drop_last()).after(plan.last())
        }
    }
}

/// However the server and its children behave, ending them closes the input, leaves the server dead and
/// reaped, and tells the reader to stop. On Unix no process of its group survives either, if its ID
/// stands for one group.
pub proof fn ending_leaves_no_process(server: Server, pid: Option<u32>)
    ensures
        ({
            let ended = server.after_plan(ending(pid));
            &&& !ended.input_open
            &&& !ended.leader_alive
            &&& ended.reaped
            &&& ended.reader_told
            &&& pid is Some && pid->Some_0 > 1 ==> !ended.children_alive
        }),
{
    reveal_with_fuel(Server::after_plan, 9);
}

/// What was found of a process.
#[derive(Clone, Copy, Debug, PartialEq, Eq, Structural)]
pub enum Poll {
    Exited,
    Running,
    Failed,
}

/// What to do about a process that is to exit.
#[derive(Clone, Copy, Debug, PartialEq, Eq, Structural)]
pub enum Wait {
    Exited,
    Again,
    GiveUp,
}

/// What to do about a process that is to exit, after a look at it.
pub fn wait_for_exit(found: Poll, in_time: bool) -> (r: Wait)
    ensures
        r is Exited <==> found is Exited,
        r is Again <==> found is Running && in_time,
{
    match found {
        Poll::Exited => Wait::Exited,
        Poll::Running => if in_time {
            Wait::Again
        } else {
            Wait::GiveUp
        },
        Poll::Failed => Wait::GiveUp,
    }
}

// ---------------------------------------------------------------------------
// Reading
// ---------------------------------------------------------------------------

/// Bytes as text, with a replacement for what is no text.
pub uninterp spec fn lossy(bytes: Seq<u8>) -> Seq<char>;

/// A text as a literal: in quotes, with escapes.
pub uninterp spec fn quoted(text: Seq<char>) -> Seq<char>;

/// `String::from_utf8_lossy` gives the text that bytes in UTF-8 encode; where bytes are not UTF-8,
/// replacement characters stand in their place.
#[verifier::external_body]
fn outside_lossy(bytes: &Vec<u8>) -> (r: String)
    ensures
        r@ == lossy(bytes@),
        valid_utf8(bytes@) ==> r@ == decode_utf8(bytes@),
{
    String::from_utf8_lossy(bytes).into_owned()
}

/// The `Debug` form of `str` in `format!` puts a text in quotes and escapes what is in it.
#[verifier::external_body]
fn outside_quoted(text: &str) -> (r: String)
    ensures
        r@ == quoted(text@),
{
    format!("{text:?}")
}

/// The message in a line, of which `read` is what it denotes as JSON.
pub open spec fn message_in(line: Seq<u8>, read: Reading) -> Reading {
    match read {
        Ok(value) => Ok(value),
        Err(error) => Err(
            "Invalid JSON from Codex app-server: "@ + error + "; line: "@ + quoted(lossy(line)),
        ),
    }
}

/// The message in a line, of which `read` is what it denotes as JSON.
pub fn message_of(line: &Vec<u8>, read: Result<Json, String>) -> (r: Result<Json, String>)
    ensures
        reading(r) == message_in(line@, reading(read)),
{
    match read {
        Ok(value) => Ok(value),
        Err(error) => {
            let mut text = "Invalid JSON from Codex app-server: ".to_owned();
            text.append(error.as_str());
            text.append("; line: ");
            let shown = outside_lossy(line);
            text.append(outside_quoted(shown.as_str()).as_str());
            Err(text)
        },
    }
}

/// The message in a line. A message that was written is read as it was.
fn parse_line(line: &Vec<u8>) -> (r: Result<Json, String>)
    ensures
        reading(r) == message_in(line@, decoded(line@)),
        forall|v: JsonView|
            exact(v, 127) && (line@ == #[trigger] encoded(v) || line@ == frame(v)) ==> r is Ok
                && r->Ok_0@ == v,
{
    let read = decode(line);
    message_of(line, read)
}

/// What came of reading up to the end of a line.
pub enum Outcome {
    /// Nothing more will come.
    End,
    /// A line is complete.
    Line,
    /// Nothing has come for now.
    WouldBlock,
    /// The reading was interrupted.
    Interrupted,
    /// The reading has failed.
    Failed(String),
}

/// What the reader does next.
#[derive(Clone, Copy, Debug, PartialEq, Eq, Structural)]
pub enum Next {
    Read,
    Pause,
    Stop,
}

/// The reader's end of the transport: the bytes of a line that is not complete.
pub struct Reader {
    line: Vec<u8>,
}

/// What a reader has to deliver, and what it does next.
pub struct Delivery {
    pub messages: Vec<Result<Json, String>>,
    pub next: Next,
}

/// What a reader has to deliver, and what it does next, with the line that it is left with.
#[verifier::ext_equal]
pub struct ReaderStep {
    pub line: Seq<u8>,
    pub messages: Seq<Reading>,
    pub next: Next,
}

/// What a sequence of received messages holds.
pub open spec fn readings(messages: Seq<Result<Json, String>>) -> Seq<Reading> {
    messages.map_values(|m: Result<Json, String>| reading(m))
}

/// What a reader does when it is told to stop.
pub open spec fn stopped(line: Seq<u8>) -> ReaderStep {
    ReaderStep {
        line,
        messages: seq![Err("Codex app-server transport shut down"@)],
        next: Next::Stop,
    }
}

/// What a reader does after it has read some bytes.
pub open spec fn after_read(line: Seq<u8>, bytes: Seq<u8>, outcome: Outcome) -> ReaderStep {
    let all = line + bytes;
    match outcome {
        Outcome::End => ReaderStep {
            line: all,
            messages: (if all.len() > 0 {
                seq![message_in(all, decoded(all))]
            } else {
                Seq::empty()
            }).push(Err("Codex app-server stdout closed (EOF)"@)),
            next: Next::Stop,
        },
        Outcome::Line => ReaderStep {
            line: Seq::empty(),
            messages: seq![message_in(all, decoded(all))],
            next: Next::Read,
        },
        Outcome::WouldBlock => ReaderStep {
            line: all,
            messages: Seq::empty(),
            next: Next::Pause,
        },
        Outcome::Interrupted => ReaderStep {
            line: all,
            messages: Seq::empty(),
            next: Next::Read,
        },
        Outcome::Failed(error) => ReaderStep {
            line: all,
            messages: seq![Err("Could not read Codex app-server stdout: "@ + error@)],
            next: Next::Stop,
        },
    }
}

impl Reader {
    /// The bytes of the line that is not complete.
    pub closed spec fn view(&self) -> Seq<u8> {
        self.line@
    }

    /// A reader that has read nothing.
    pub fn new() -> (r: Reader)
        ensures
            r@ == Seq::<u8>::empty(),
    {
        Reader { line: Vec::new() }
    }

    /// What a reader does when it is told to stop.
    pub fn stop(&self) -> (r: Delivery)
        ensures
            readings(r.messages@) == stopped(self@).messages,
            r.next == stopped(self@).next,
    {
        let mut messages: Vec<Result<Json, String>> = Vec::new();
        messages.push(Err("Codex app-server transport shut down".to_owned()));
        assert(readings(messages@) =~= stopped(self@).messages);
        Delivery { messages, next: Next::Stop }
    }

    /// What a reader does after it has read some bytes. A message that was written is delivered as it
    /// was.
    pub fn read(&mut self, bytes: Vec<u8>, outcome: Outcome) -> (r: Delivery)
        ensures
            final(self)@ == after_read(old(self)@, bytes@, outcome).line,
            readings(r.messages@) == after_read(old(self)@, bytes@, outcome).messages,
            r.next == after_read(old(self)@, bytes@, outcome).next,
            forall|v: JsonView|
                exact(v, 127) && (outcome is Line || outcome is End) && (old(self)@ + bytes@
                    == #[trigger] encoded(v) || old(self)@ + bytes@ == frame(v)) && old(self)@.len()
                    + bytes@.len() > 0 ==> r.messages@.len() > 0 && r.messages@[0] is Ok
                    && r.messages@[0]->Ok_0@ == v,
    {
        let mut bytes = bytes;
        let ghost start = self@;
        let ghost more = bytes@;
        self.line.append(&mut bytes);
        let mut messages: Vec<Result<Json, String>> = Vec::new();
        assert(readings(messages@) =~= Seq::empty());
        match outcome {
            Outcome::End => {
                if self.line.len() > 0 {
                    messages.push(parse_line(&self.line));
                }
                messages.push(Err("Codex app-server stdout closed (EOF)".to_owned()));
                assert(readings(messages@) =~= after_read(start, more, outcome).messages);
                Delivery { messages, next: Next::Stop }
            },
            Outcome::Line => {
                messages.push(parse_line(&self.line));
                self.line.clear();
                assert(readings(messages@) =~= after_read(start, more, outcome).messages);
                Delivery { messages, next: Next::Read }
            },
            Outcome::WouldBlock => Delivery { messages, next: Next::Pause },
            Outcome::Interrupted => Delivery { messages, next: Next::Read },
            Outcome::Failed(error) => {
                let mut text = "Could not read Codex app-server stdout: ".to_owned();
                text.append(error.as_str());
                messages.push(Err(text));
                assert(readings(messages@) =~= seq![
                    Err::<JsonView, Seq<char>>(
                        "Could not read Codex app-server stdout: "@ + error@,
                    ),
                ]);
                Delivery { messages, next: Next::Stop }
            },
        }
    }
}

/// It makes no difference in how many pieces a line arrives.
pub proof fn pieces_of_a_line_add_up(line: Seq<u8>, a: Seq<u8>, b: Seq<u8>, outcome: Outcome)
    ensures
        after_read(after_read(line, a, Outcome::WouldBlock).line, b, outcome) == after_read(
            line,
            a + b,
            outcome,
        ),
        after_read(after_read(line, a, Outcome::Interrupted).line, b, outcome) == after_read(
            line,
            a + b,
            outcome,
        ),
{
    assert(line + a + b =~= line + (a + b));
}

/// A line that cannot be read costs no other line: what follows is read from its start.
pub proof fn a_broken_line_stands_alone(line: Seq<u8>, bytes: Seq<u8>)
    ensures
        after_read(line, bytes, Outcome::Line).line.len() == 0,
        after_read(line, bytes, Outcome::Line).next is Read,
        after_read(line, bytes, Outcome::Line).messages.len() == 1,
{
}

/// A reader stops when the output of the server has ended, when it cannot be read or when the reader is
/// told to, and then only: the last that it delivers is an error, which says so.
pub proof fn a_reader_ends_with_an_error(line: Seq<u8>, bytes: Seq<u8>, outcome: Outcome)
    ensures
        stopped(line).next is Stop,
        stopped(line).messages == seq![
            Err::<JsonView, Seq<char>>("Codex app-server transport shut down"@),
        ],
        after_read(line, bytes, outcome).next is Stop <==> outcome is End || outcome is Failed,
        after_read(line, bytes, outcome).next is Stop ==> {
            &&& after_read(line, bytes, outcome).messages.len() > 0
            &&& after_read(line, bytes, outcome).messages.last() is Err
        },
{
}

// ---------------------------------------------------------------------------
// What is on the lines
// ---------------------------------------------------------------------------

proof fn lemma_keys_differ()
    ensures
        "id"@ != "method"@,
        "id"@ != "params"@,
        "method"@ != "params"@,
        "id"@ != "result"@,
        "id"@ != "error"@,
        "code"@ != "message"@,
{
    reveal_strlit("id");
    reveal_strlit("method");
    reveal_strlit("params");
    reveal_strlit("result");
    reveal_strlit("error");
    reveal_strlit("code");
    reveal_strlit("message");
    assert("id"@.len() == 2 && "method"@.len() == 6 && "params"@.len() == 6 && "result"@.len() == 6
        && "error"@.len() == 5 && "code"@.len() == 4 && "message"@.len() == 7);
    assert("method"@[0] == 'm' && "params"@[0] == 'p');
}

/// Whether a line is the one that a message is written on: its JSON text and a line feed.
pub open spec fn carries(line: Seq<u8>, message: JsonView) -> bool {
    line == encoded(message) + seq![10u8]
}

/// A request is written with an ID of its own, its method and its params, and nothing else, as long as
/// the transport is open and there is an ID left. The next request has the next ID.
pub proof fn a_request_says_what_is_asked(c: ClientView, method: Seq<char>, params: JsonView)
    ensures
        c.requested(method, params) is Ok <==> c.open && c.next_id < u64::MAX,
        c.next_id == u64::MAX ==> c.requested(method, params) == Err::<(u64, Seq<u8>), Fault>(
            Fault::Exhausted,
        ) && c.after_request() == c,
        c.next_id < u64::MAX ==> c.after_request().next_id == c.next_id + 1
            && c.after_request().open == c.open && c.after_request().running == c.running,
        c.open && c.next_id < u64::MAX ==> {
            let sent = c.requested(method, params)->Ok_0;
            let message = request_message(sent.0, method, params);
            &&& sent.0 == c.next_id
            &&& carries(sent.1, message)
            &&& field(message, "id"@) == JsonView::Num(NumberView::Pos(sent.0))
            &&& field(message, "method"@) == JsonView::Text(method)
            &&& field(message, "params"@) == params
            &&& message->Object_0.dom() =~= set!["id"@, "method"@, "params"@]
        },
{
    lemma_keys_differ();
    if c.open && c.next_id < u64::MAX {
        let message = request_message(c.next_id, method, params);
        assert(frame(message) =~= encoded(message) + seq![10u8]);
    }
}

/// A notification is written with its method and its params, the answer to a request with the ID of that
/// request and the result, and its refusal with that ID and why: nothing else is on the line, and nothing
/// is written once the transport is shut down.
pub proof fn a_message_says_what_is_meant(
    c: ClientView,
    method: Seq<char>,
    params: JsonView,
    id: JsonView,
    why: Seq<char>,
)
    ensures
        !c.open ==> c.written(params) == Err::<Seq<u8>, Fault>(Fault::ShutDown),
        c.open ==> c.written(params) is Ok && carries(c.written(params)->Ok_0, params),
        field(notification(method, params), "method"@) == JsonView::Text(method),
        field(notification(method, params), "params"@) == params,
        notification(method, params)->Object_0.dom() =~= set!["method"@, "params"@],
        field(reply_message(id, params), "id"@) == id,
        field(reply_message(id, params), "result"@) == params,
        reply_message(id, params)->Object_0.dom() =~= set!["id"@, "result"@],
        field(refusal(id, why), "id"@) == id,
        refusal(id, why)->Object_0.dom() =~= set!["id"@, "error"@],
        field(field(refusal(id, why), "error"@), "code"@) == JsonView::Num(
            NumberView::Neg((-32000) as i64),
        ),
        field(field(refusal(id, why), "error"@), "message"@) == JsonView::Text(why),
        field(refusal(id, why), "error"@)->Object_0.dom() =~= set!["code"@, "message"@],
{
    lemma_keys_differ();
    assert(frame(params) =~= encoded(params) + seq![10u8]);
}

/// The server is started to listen on its standard input and output, with every setting of the
/// configuration, in order and each behind its own switch.
pub proof fn every_setting_reaches_the_server(config: Seq<Seq<char>>, i: int)
    ensures
        server_arguments(config).len() == 3 + 2 * config.len(),
        server_arguments(config)[0] == "app-server"@,
        server_arguments(config)[1] == "--listen"@,
        server_arguments(config)[2] == "stdio://"@,
        0 <= i < config.len() ==> server_arguments(config)[3 + 2 * i] == "-c"@,
        0 <= i < config.len() ==> server_arguments(config)[3 + 2 * i + 1] == config[i],
{
    if config.len() > 0 {
        lemma_settings(
            config,
            if 0 <= i < config.len() {
                i
            } else {
                0
            },
        );
    } else {
        assert(setting_arguments(config).len() == 0);
    }
}

proof fn lemma_settings(config: Seq<Seq<char>>, i: int)
    requires
        0 <= i < config.len(),
    ensures
        setting_arguments(config).len() == 2 * config.len(),
        setting_arguments(config)[2 * i] == "-c"@,
        setting_arguments(config)[2 * i + 1] == config[i],
    decreases config.len(),
{
    let rest = config.drop_last();
    if rest.len() > 0 {
        lemma_settings(
            rest,
            if i < rest.len() {
                i
            } else {
                0
            },
        );
        if i < rest.len() {
            assert(rest[i] == config[i]);
        }
    } else {
        assert(setting_arguments(rest) =~= Seq::empty());
    }
}

/// The server has a tenth of a second to end by itself, a quarter of one once it is told to, and then its
/// whole group is killed; it is waited for a second at most, and the reader for a tenth. Where its ID
/// stands for no group of its own, and where there are no groups, the process alone is killed.
pub proof fn the_server_has_time_to_end(pid: u32)
    requires
        pid <= i32::MAX,
    ensures
        pid > 1 ==> ending(Some(pid)) == seq![
            Act::CloseInput,
            Act::Sleep(100),
            Act::Terminate((-(pid as int)) as i32),
            Act::Sleep(250),
            Act::KillGroup((-(pid as int)) as i32),
            Act::Reap(1000),
            Act::StopReader,
            Act::Join(100),
        ],
        pid <= 1 ==> ending(Some(pid)) == seq![
            Act::CloseInput,
            Act::Sleep(100),
            Act::KillProcess,
            Act::Reap(1000),
            Act::StopReader,
            Act::Join(100),
        ],
        ending(None) == seq![
            Act::CloseInput,
            Act::Grace(100),
            Act::Reap(1000),
            Act::StopReader,
            Act::Join(100),
        ],
{
}

/// A reader delivers every line once, when it is complete: what it denotes, or what is wrong with it. It
/// delivers nothing of a line that is not complete, unless the output ends with it, and keeps it.
pub proof fn lines_are_delivered_once(line: Seq<u8>, bytes: Seq<u8>, error: String)
    ensures
        ({
            let all = line + bytes;
            let message = match decoded(all) {
                Ok(value) => Reading::Ok(value),
                Err(why) => Reading::Err(
                    "Invalid JSON from Codex app-server: "@ + why + "; line: "@ + quoted(
                        lossy(all),
                    ),
                ),
            };
            let end = Reading::Err("Codex app-server stdout closed (EOF)"@);
            &&& after_read(line, bytes, Outcome::Line).messages == seq![message]
            &&& after_read(line, bytes, Outcome::Line).line.len() == 0
            &&& after_read(line, bytes, Outcome::Line).next == Next::Read
            &&& after_read(line, bytes, Outcome::End).messages == if all.len() > 0 {
                seq![message, end]
            } else {
                seq![end]
            }
            &&& after_read(line, bytes, Outcome::WouldBlock) == (ReaderStep {
                line: all,
                messages: Seq::empty(),
                next: Next::Pause,
            })
            &&& after_read(line, bytes, Outcome::Interrupted) == (ReaderStep {
                line: all,
                messages: Seq::empty(),
                next: Next::Read,
            })
            &&& after_read(line, bytes, Outcome::Failed(error)).messages == seq![
                Reading::Err("Could not read Codex app-server stdout: "@ + error@),
            ]
        }),
{
    let all = line + bytes;
    let end = Reading::Err("Codex app-server stdout closed (EOF)"@);
    assert(Seq::<Reading>::empty().push(end) =~= seq![end]);
    assert(seq![message_in(all, decoded(all))].push(end) =~= seq![
        message_in(all, decoded(all)),
        end,
    ]);
}

/// Where the server cannot be started, what is said begins with the executable and what is wrong with it, and
/// ends with the directory that it was to work in; both are given as they are.
pub proof fn a_failed_start_names_what_was_tried(codex: Seq<char>, error: Seq<char>, cwd: Seq<char>)
    ensures
        ("Could not start Codex executable '"@ + codex + "': "@ + error).is_prefix_of(
            launch_complaint(codex, error, cwd),
        ),
        ("working directory '"@ + cwd + "' exists."@).is_suffix_of(
            launch_complaint(codex, error, cwd),
        ),
        launch_complaint(codex, error, cwd).len() == launch_complaint(
            Seq::empty(),
            Seq::empty(),
            Seq::empty(),
        ).len() + codex.len() + error.len() + cwd.len(),
{
    let said = launch_complaint(codex, error, cwd);
    let start = "Could not start Codex executable '"@ + codex + "': "@ + error;
    let advice = ". Verify Codex is installed, its executable path is correct, and working directory '"@;
    let end = "working directory '"@ + cwd + "' exists."@;
    assert(said =~= start + advice + cwd + "' exists."@);
    assert(said.subrange(0, start.len() as int) =~= start);
    reveal_strlit("working directory '");
    reveal_strlit(
        ". Verify Codex is installed, its executable path is correct, and working directory '",
    );
    assert(advice.skip(advice.len() - 19) =~= "working directory '"@);
    let at = said.len() - end.len();
    assert(advice =~= advice.take(advice.len() - 19) + "working directory '"@);
    assert(said =~= start + advice.take(advice.len() - 19) + end);
    assert(said.subrange(at, said.len() as int) =~= end);
}

} // verus!
