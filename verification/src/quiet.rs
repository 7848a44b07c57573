//! A tool server for commands whose output nobody wants to see: it answers requests line by line,
//! and says of a command only how it has ended.
use crate::codec::{encode, encoded, parse, parsed, reading, Reading};
use crate::json::{field, member, no_members, text_of, unsigned_of, views, Json, JsonView};
use crate::json::{NumberView, Object};
use crate::text::{decimal, same, signed, to_decimal, to_signed, trim, trimmed};
use vstd::prelude::*;
use vstd::string::*;

verus! {

/// How long a command may run unless the request says otherwise, in milliseconds.
pub const DEFAULT_TIMEOUT_MS: u64 = 120_000;

/// How long a command may run at most, in milliseconds.
pub const MAX_TIMEOUT_MS: u64 = 600_000;

/// The version of the protocol that is spoken.
pub const PROTOCOL_VERSION: &'static str = "2024-11-05";

// ---------------------------------------------------------------------------
// Answers
// ---------------------------------------------------------------------------

/// What is said of a call.
pub open spec fn tool_result(message: Seq<char>, is_error: bool) -> JsonView {
    JsonView::Object(
        no_members().insert(
            "content"@,
            JsonView::Array(
                seq![
                    JsonView::Object(
                        no_members().insert("type"@, JsonView::Text("text"@)).insert(
                            "text"@,
                            JsonView::Text(message),
                        ),
                    ),
                ],
            ),
        ).insert("isError"@, JsonView::Bool(is_error)),
    )
}

/// What is said of a call.
fn result(message: &str, is_error: bool) -> (r: Json)
    ensures
        r@ == tool_result(message@, is_error),
{
    let ghost wanted = JsonView::Object(
        no_members().insert("type"@, JsonView::Text("text"@)).insert(
            "text"@,
            JsonView::Text(message@),
        ),
    );
    let part = Json::Object(
        Object::new().with("type", Json::text("text")).with("text", Json::text(message)),
    );
    let list = vec![part];
    assert(views(list@) =~= seq![wanted]);
    Json::Object(
        Object::new().with("content", Json::list(list)).with("isError", Json::Bool(is_error)),
    )
}

/// What is said of a call that has succeeded.
pub fn tool_success(message: &str) -> (r: Json)
    ensures
        r@ == tool_result(message@, false),
{
    result(message, false)
}

/// What is said of a call that has failed.
pub fn tool_error(message: &str) -> (r: Json)
    ensures
        r@ == tool_result(message@, true),
{
    result(message, true)
}

/// The number of a whole number.
pub open spec fn integer(i: i64) -> JsonView {
    JsonView::Num(
        if i < 0 {
            NumberView::Neg(i)
        } else {
            NumberView::Pos(i as u64)
        },
    )
}

/// The refusal of a request.
pub open spec fn refused(id: JsonView, code: i64, message: Seq<char>) -> JsonView {
    JsonView::Object(
        no_members().insert("jsonrpc"@, JsonView::Text("2.0"@)).insert("id"@, id).insert(
            "error"@,
            JsonView::Object(
                no_members().insert("code"@, integer(code)).insert(
                    "message"@,
                    JsonView::Text(message),
                ),
            ),
        ),
    )
}

/// The refusal of a request.
pub fn error_response(id: Json, code: i64, message: &str) -> (r: Json)
    ensures
        r@ == refused(id@, code, message@),
{
    let error = Json::Object(
        Object::new().with("code", Json::from_i64(code)).with("message", Json::text(message)),
    );
    Json::Object(
        Object::new().with("jsonrpc", Json::text("2.0")).with("id", id).with("error", error),
    )
}

/// The response to a request.
pub open spec fn responded(id: JsonView, result: JsonView) -> JsonView {
    JsonView::Object(
        no_members().insert("jsonrpc"@, JsonView::Text("2.0"@)).insert("id"@, id).insert(
            "result"@,
            result,
        ),
    )
}

/// The response to a request.
fn respond(id: Json, result: Json) -> (r: Json)
    ensures
        r@ == responded(id@, result@),
{
    Json::Object(
        Object::new().with("jsonrpc", Json::text("2.0")).with("id", id).with("result", result),
    )
}

/// A response as it is written: on a line of its own.
pub fn response_line(response: &Json) -> (r: Vec<u8>)
    ensures
        r@ == encoded(response@).push(10u8),
        !r@.drop_last().contains(10u8),
{
    let mut bytes = encode(response);
    let ghost line = bytes@;
    bytes.push(10);
    assert(bytes@.drop_last() =~= line);
    bytes
}

// ---------------------------------------------------------------------------
// What the server says of itself
// ---------------------------------------------------------------------------

/// What the server says of itself.
pub open spec fn introduction() -> JsonView {
    JsonView::Object(
        no_members().insert("protocolVersion"@, JsonView::Text(PROTOCOL_VERSION@)).insert(
            "capabilities"@,
            JsonView::Object(no_members().insert("tools"@, JsonView::Object(no_members()))),
        ).insert(
            "instructions"@,
            JsonView::Text(
                "Use run_quiet only when child stdout and stderr should be discarded. The tool runs shell commands with the permissions of the Codex process."@,
            ),
        ).insert(
            "serverInfo"@,
            JsonView::Object(
                no_members().insert("name"@, JsonView::Text("codex-command-quiet"@)).insert(
                    "version"@,
                    JsonView::Text("0.1.0"@),
                ),
            ),
        ),
    )
}

/// What the server says of itself.
fn introduce() -> (r: Json)
    ensures
        r@ == introduction(),
{
    let capabilities = Json::Object(Object::new().with("tools", Json::Object(Object::new())));
    let info = Json::Object(
        Object::new().with("name", Json::text("codex-command-quiet")).with(
            "version",
            Json::text("0.1.0"),
        ),
    );
    Json::Object(
        Object::new().with("protocolVersion", Json::text(PROTOCOL_VERSION)).with(
            "capabilities",
            capabilities,
        ).with(
            "instructions",
            Json::text(
                "Use run_quiet only when child stdout and stderr should be discarded. The tool runs shell commands with the permissions of the Codex process.",
            ),
        ).with("serverInfo", info),
    )
}

/// A member of the tool's input that is a text.
pub open spec fn text_property(about: Seq<char>) -> JsonView {
    JsonView::Object(
        no_members().insert("type"@, JsonView::Text("string"@)).insert(
            "description"@,
            JsonView::Text(about),
        ),
    )
}

/// What the tool's input looks like.
pub open spec fn tool_properties() -> JsonView {
    JsonView::Object(
        no_members().insert("command"@, text_property("Shell command to execute."@)).insert(
            "cwd"@,
            text_property(
                "Optional working directory. Defaults to the MCP server working directory."@,
            ),
        ).insert(
            "timeout_ms"@,
            JsonView::Object(
                no_members().insert("type"@, JsonView::Text("integer"@)).insert(
                    "minimum"@,
                    JsonView::Num(NumberView::Pos(1)),
                ).insert("maximum"@, JsonView::Num(NumberView::Pos(MAX_TIMEOUT_MS))).insert(
                    "default"@,
                    JsonView::Num(NumberView::Pos(DEFAULT_TIMEOUT_MS)),
                ).insert(
                    "description"@,
                    JsonView::Text("Optional timeout in milliseconds."@),
                ),
            ),
        ),
    )
}

/// What the server says of its tool.
pub open spec fn tool_description() -> JsonView {
    JsonView::Object(
        no_members().insert("name"@, JsonView::Text("run_quiet"@)).insert(
            "description"@,
            JsonView::Text(
                "Run a shell command with stdin, stdout, and stderr discarded. Return only its exit status."@,
            ),
        ).insert(
            "annotations"@,
            JsonView::Object(
                no_members().insert("readOnlyHint"@, JsonView::Bool(false)).insert(
                    "destructiveHint"@,
                    JsonView::Bool(true),
                ).insert("openWorldHint"@, JsonView::Bool(true)),
            ),
        ).insert(
            "inputSchema"@,
            JsonView::Object(
                no_members().insert("type"@, JsonView::Text("object"@)).insert(
                    "properties"@,
                    tool_properties(),
                ).insert(
                    "required"@,
                    JsonView::Array(seq![JsonView::Text("command"@)]),
                ).insert("additionalProperties"@, JsonView::Bool(false)),
            ),
        ),
    )
}

/// A member of the tool's input that is a text.
fn describe_text(about: &str) -> (r: Json)
    ensures
        r@ == text_property(about@),
{
    Json::Object(
        Object::new().with("type", Json::text("string")).with("description", Json::text(about)),
    )
}

/// What the tool's input looks like.
fn describe_properties() -> (r: Json)
    ensures
        r@ == tool_properties(),
{
    let timeout = Json::Object(
        Object::new().with("type", Json::text("integer")).with("minimum", Json::from_u64(1)).with(
            "maximum",
            Json::from_u64(MAX_TIMEOUT_MS),
        ).with("default", Json::from_u64(DEFAULT_TIMEOUT_MS)).with(
            "description",
            Json::text("Optional timeout in milliseconds."),
        ),
    );
    Json::Object(
        Object::new().with("command", describe_text("Shell command to execute.")).with(
            "cwd",
            describe_text(
                "Optional working directory. Defaults to the MCP server working directory.",
            ),
        ).with("timeout_ms", timeout),
    )
}

/// What the server says of its tool.
pub fn tool_definition() -> (r: Json)
    ensures
        r@ == tool_description(),
{
    let annotations = Json::Object(
        Object::new().with("readOnlyHint", Json::Bool(false)).with(
            "destructiveHint",
            Json::Bool(true),
        ).with("openWorldHint", Json::Bool(true)),
    );
    let required = vec![Json::text("command")];
    assert(views(required@) =~= seq![JsonView::Text("command"@)]);
    let schema = Json::Object(
        Object::new().with("type", Json::text("object")).with(
            "properties",
            describe_properties(),
        ).with("required", Json::list(required)).with("additionalProperties", Json::Bool(false)),
    );
    Json::Object(
        Object::new().with("name", Json::text("run_quiet")).with(
            "description",
            Json::text(
                "Run a shell command with stdin, stdout, and stderr discarded. Return only its exit status.",
            ),
        ).with("annotations", annotations).with("inputSchema", schema),
    )
}

// ---------------------------------------------------------------------------
// Calls
// ---------------------------------------------------------------------------

/// A command that is to be run.
#[derive(Debug)]
pub struct Job {
    pub command: String,
    pub cwd: Option<String>,
    pub timeout_ms: u64,
}

/// A command that is to be run, by its contents.
#[verifier::ext_equal]
pub struct JobView {
    pub command: Seq<char>,
    pub cwd: Option<Seq<char>>,
    pub timeout_ms: u64,
}

impl Job {
    /// What the job holds.
    pub open spec fn view(&self) -> JobView {
        JobView {
            command: self.command@,
            cwd: match self.cwd {
                Some(cwd) => Some(cwd@),
                None => None,
            },
            timeout_ms: self.timeout_ms,
        }
    }
}

/// What comes of a call: a command to run, or what is said against it.
pub type Call = Result<JobView, Seq<char>>;

/// How long a command may run, or what is said against it.
pub open spec fn timeout_of(value: Option<JsonView>) -> Result<u64, Seq<char>> {
    match value {
        None => Ok(DEFAULT_TIMEOUT_MS),
        Some(value) => match unsigned_of(value) {
            None => Err("timeout_ms must be a positive integer"@),
            Some(timeout_ms) => if timeout_ms == 0 || timeout_ms > MAX_TIMEOUT_MS {
                Err("timeout_ms must be between 1 and "@ + decimal(MAX_TIMEOUT_MS as nat))
            } else {
                Ok(timeout_ms)
            },
        },
    }
}

/// What comes of a call.
pub open spec fn called(params: JsonView) -> Call {
    let arguments = field(params, "arguments"@);
    let command = text_of(field(arguments, "command"@));
    if !(params is Object) {
        Err("tool parameters must be an object"@)
    } else if text_of(field(params, "name"@)) is None {
        Err("tool name must be a string"@)
    } else if field(params, "name"@) != JsonView::Text("run_quiet"@) {
        Err("unknown tool"@)
    } else if !(arguments is Object) {
        Err("arguments must be an object"@)
    } else if command is None {
        Err("command must be a string"@)
    } else if trimmed(command->Some_0).len() == 0 {
        Err("command must not be empty"@)
    } else {
        match timeout_of(member(arguments, "timeout_ms"@)) {
            Err(reason) => Err(reason),
            Ok(timeout_ms) => Ok(
                JobView {
                    command: command->Some_0,
                    cwd: text_of(field(arguments, "cwd"@)),
                    timeout_ms,
                },
            ),
        }
    }
}

/// How long a command may run, or what is said against it.
pub fn parse_timeout(value: Option<&Json>) -> (r: Result<u64, String>)
    ensures
        ({
            let wanted = timeout_of(
                match value {
                    Some(value) => Some(value@),
                    None => None,
                },
            );
            match r {
                Ok(timeout_ms) => wanted == Ok::<u64, Seq<char>>(timeout_ms),
                Err(reason) => wanted == Err::<u64, Seq<char>>(reason@),
            }
        }),
{
    match value {
        None => Ok(DEFAULT_TIMEOUT_MS),
        Some(value) => match value.as_u64() {
            None => Err("timeout_ms must be a positive integer".to_owned()),
            Some(timeout_ms) => {
                if timeout_ms == 0 || timeout_ms > MAX_TIMEOUT_MS {
                    let mut reason = "timeout_ms must be between 1 and ".to_owned();
                    reason.append(to_decimal(MAX_TIMEOUT_MS as u128).as_str());
                    return Err(reason);
                }
                Ok(timeout_ms)
            },
        },
    }
}

/// What comes of a call, by its contents.
pub open spec fn call_view(r: Result<Job, String>) -> Call {
    match r {
        Ok(job) => Ok(job@),
        Err(reason) => Err(reason@),
    }
}

/// What comes of a call.
pub fn call_tool(params: &Json) -> (r: Result<Job, String>)
    ensures
        call_view(r) == called(params@),
{
    if params.as_object().is_none() {
        return Err("tool parameters must be an object".to_owned());
    }
    match params.at("name").as_str() {
        None => {
            return Err("tool name must be a string".to_owned());
        },
        Some(name) => {
            if !same(name, "run_quiet") {
                return Err("unknown tool".to_owned());
            }
        },
    }
    let arguments = params.at("arguments");
    if arguments.as_object().is_none() {
        return Err("arguments must be an object".to_owned());
    }
    let command = match arguments.at("command").as_str() {
        Some(command) => command,
        None => {
            return Err("command must be a string".to_owned());
        },
    };
    if trim(command).as_str().is_empty() {
        return Err("command must not be empty".to_owned());
    }
    let cwd = match arguments.at("cwd").as_str() {
        Some(cwd) => Some(cwd.to_owned()),
        None => None,
    };
    match parse_timeout(arguments.get("timeout_ms")) {
        Ok(timeout_ms) => Ok(Job { command: command.to_owned(), cwd, timeout_ms }),
        Err(reason) => Err(reason),
    }
}

// ---------------------------------------------------------------------------
// Running
// ---------------------------------------------------------------------------

/// How a command has ended.
#[derive(Clone, Copy, Debug, PartialEq, Eq, Structural)]
pub struct RunOutcome {
    pub exit_code: Option<i32>,
    pub timed_out: bool,
}

/// The program that runs a command, and the argument before the command.
pub fn shell(windows: bool) -> (r: (&'static str, &'static str))
    ensures
        r.0@ == (if windows {
            "cmd"@
        } else {
            "sh"@
        }),
        r.1@ == (if windows {
            "/C"@
        } else {
            "-c"@
        }),
{
    if windows {
        ("cmd", "/C")
    } else {
        ("sh", "-c")
    }
}

/// What to do about a command that is running.
#[derive(Clone, Copy, Debug, PartialEq, Eq, Structural)]
pub enum Watch {
    /// It has ended.
    Ended(RunOutcome),
    /// It has run for too long and is to be killed.
    Kill(RunOutcome),
    /// It is to be looked at again.
    Again,
}

/// What to do about a command, after a look at it: `ended` is its exit code once it has one.
pub open spec fn watched(ended: Option<Option<i32>>, nanoseconds: u128, timeout_ms: u64) -> Watch {
    match ended {
        Some(exit_code) => Watch::Ended(RunOutcome { exit_code, timed_out: false }),
        None => if nanoseconds >= timeout_ms * 1_000_000 {
            Watch::Kill(RunOutcome { exit_code: None, timed_out: true })
        } else {
            Watch::Again
        },
    }
}

/// What to do about a command, after a look at it: `ended` is its exit code once it has one.
pub fn watch(ended: Option<Option<i32>>, nanoseconds: u128, timeout_ms: u64) -> (r: Watch)
    ensures
        r == (match ended {
            Some(exit_code) => Watch::Ended(RunOutcome { exit_code, timed_out: false }),
            None => if nanoseconds >= timeout_ms * 1_000_000 {
                Watch::Kill(RunOutcome { exit_code: None, timed_out: true })
            } else {
                Watch::Again
            },
        }),
        r == watched(ended, nanoseconds, timeout_ms),
{
    match ended {
        Some(exit_code) => Watch::Ended(RunOutcome { exit_code, timed_out: false }),
        None => if nanoseconds >= (timeout_ms as u128) * 1_000_000 {
            Watch::Kill(RunOutcome { exit_code: None, timed_out: true })
        } else {
            Watch::Again
        },
    }
}

/// What is said of a command that was run, or could not be started.
pub open spec fn run_result(outcome: Option<RunOutcome>) -> JsonView {
    match outcome {
        None => tool_result("failed to start command"@, true),
        Some(outcome) => if outcome.timed_out {
            tool_result("command timed out"@, true)
        } else {
            match outcome.exit_code {
                Some(code) => if code == 0 {
                    tool_result("ok: exit code 0"@, false)
                } else {
                    tool_result("failed: exit code "@ + signed(code as int), true)
                },
                None => tool_result("failed: process ended without an exit code"@, true),
            }
        },
    }
}

/// What is said of a command that was run, or could not be started.
pub fn finish(outcome: Option<RunOutcome>) -> (r: Json)
    ensures
        r@ == run_result(outcome),
{
    match outcome {
        None => tool_error("failed to start command"),
        Some(outcome) => {
            if outcome.timed_out {
                return tool_error("command timed out");
            }
            match outcome.exit_code {
                Some(code) => {
                    if code == 0 {
                        return tool_success("ok: exit code 0");
                    }
                    let mut text = "failed: exit code ".to_owned();
                    text.append(to_signed(code as i64).as_str());
                    tool_error(text.as_str())
                },
                None => tool_error("failed: process ended without an exit code"),
            }
        },
    }
}

// ---------------------------------------------------------------------------
// Requests
// ---------------------------------------------------------------------------

/// What comes of a request.
#[derive(Debug)]
pub enum Handled {
    /// Nothing is written.
    Silent,
    /// A response is written.
    Reply(Json),
    /// A command is run, and what is said of it is the response to the request with an ID.
    Run(Json, Job),
}

/// What comes of a request, by its contents.
pub enum HandledView {
    Silent,
    Reply(JsonView),
    Run(JsonView, JobView),
}

impl Handled {
    /// What it holds.
    pub open spec fn view(&self) -> HandledView {
        match self {
            Handled::Silent => HandledView::Silent,
            Handled::Reply(response) => HandledView::Reply(response@),
            Handled::Run(id, job) => HandledView::Run(id@, job@),
        }
    }
}

/// What comes of a request. One without an ID, or without a method, gets no response.
pub open spec fn handled(request: JsonView) -> HandledView {
    let method = text_of(field(request, "method"@));
    let id = member(request, "id"@);
    if method is None || id is None {
        HandledView::Silent
    } else if method->Some_0 == "initialize"@ {
        HandledView::Reply(responded(id->Some_0, introduction()))
    } else if method->Some_0 == "tools/list"@ {
        HandledView::Reply(
            responded(
                id->Some_0,
                JsonView::Object(
                    no_members().insert("tools"@, JsonView::Array(seq![tool_description()])),
                ),
            ),
        )
    } else if method->Some_0 == "tools/call"@ {
        match called(field(request, "params"@)) {
            Ok(job) => HandledView::Run(id->Some_0, job),
            Err(reason) => HandledView::Reply(
                responded(id->Some_0, tool_result(reason, true)),
            ),
        }
    } else {
        HandledView::Reply(refused(id->Some_0, (-32601) as i64, "method not found"@))
    }
}

/// What comes of a request.
pub fn handle_request(request: &Json) -> (r: Handled)
    ensures
        r@ == handled(request@),
{
    let method = match request.at("method").as_str() {
        Some(method) => method,
        None => {
            return Handled::Silent;
        },
    };
    // JSON-RPC notifications do not receive responses.
    let id = match request.get("id") {
        Some(id) => id.clone(),
        None => {
            return Handled::Silent;
        },
    };
    if same(method, "initialize") {
        Handled::Reply(respond(id, introduce()))
    } else if same(method, "tools/list") {
        let tools = vec![tool_definition()];
        assert(views(tools@) =~= seq![tool_description()]);
        Handled::Reply(respond(id, Json::Object(Object::new().with("tools", Json::list(tools)))))
    } else if same(method, "tools/call") {
        match call_tool(request.at("params")) {
            Ok(job) => Handled::Run(id, job),
            Err(reason) => Handled::Reply(respond(id, tool_error(reason.as_str()))),
        }
    } else {
        Handled::Reply(error_response(id, -32601, "method not found"))
    }
}

/// The response to a request whose command was run, or could not be started.
pub fn run_response(id: Json, outcome: Option<RunOutcome>) -> (r: Json)
    ensures
        r@ == responded(id@, run_result(outcome)),
{
    respond(id, finish(outcome))
}

/// What comes of a line, of which `read` is what it denotes as JSON.
pub open spec fn line_handled(line: Seq<char>, read: Reading) -> HandledView {
    if trimmed(line).len() == 0 {
        HandledView::Silent
    } else {
        match read {
            Ok(request) => handled(request),
            Err(error) => HandledView::Reply(
                refused(JsonView::Null, (-32700) as i64, "invalid JSON: "@ + error),
            ),
        }
    }
}

/// What comes of a line, of which `read` is what it denotes as JSON.
pub fn handle_read(line: &str, read: &Result<Json, String>) -> (r: Handled)
    ensures
        r@ == line_handled(line@, reading(*read)),
{
    if trim(line).as_str().is_empty() {
        return Handled::Silent;
    }
    match read {
        Ok(request) => handle_request(request),
        Err(error) => {
            let mut text = "invalid JSON: ".to_owned();
            text.append(error.as_str());
            Handled::Reply(error_response(Json::Null, -32700, text.as_str()))
        },
    }
}

/// What comes of a line.
pub fn handle_line(line: &str) -> (r: Handled)
    ensures
        r@ == line_handled(line@, parsed(line@)),
{
    let read = parse(line);
    handle_read(line, &read)
}

// ---------------------------------------------------------------------------
// Laws
// ---------------------------------------------------------------------------

/// Notifications get no response, and run no command.
pub proof fn notifications_get_no_response(request: JsonView)
    requires
        member(request, "id"@) is None,
    ensures
        handled(request) is Silent,
{
}

/// A response is for the request it answers.
pub proof fn responses_carry_the_id_of_their_request(request: JsonView)
    ensures
        match handled(request) {
            HandledView::Silent => true,
            HandledView::Reply(response) => member(request, "id"@) == Some(field(response, "id"@)),
            HandledView::Run(id, job) => member(request, "id"@) == Some(id),
        },
{
    reveal_strlit("id");
    reveal_strlit("result");
    reveal_strlit("error");
    assert("id"@.len() == 2 && "result"@.len() == 6 && "error"@.len() == 5);
}

/// A command that is run is not blank, and has a limit that is neither zero nor above the greatest.
pub proof fn jobs_are_limited(request: JsonView)
    ensures
        match handled(request) {
            HandledView::Run(id, job) => trimmed(job.command).len() > 0 && 1 <= job.timeout_ms
                <= MAX_TIMEOUT_MS,
            _ => true,
        },
{
}

/// A call counts as successful just where its command has ended by itself with the exit code zero.
pub proof fn only_exit_code_zero_succeeds(outcome: Option<RunOutcome>)
    ensures
        field(run_result(outcome), "isError"@) == JsonView::Bool(false) <==> (outcome is Some
            && !outcome->Some_0.timed_out && outcome->Some_0.exit_code == Some(0i32)),
{
    reveal_strlit("isError");
    reveal_strlit("content");
}

proof fn lemma_keys_differ()
    ensures
        "jsonrpc"@ != "id"@,
        "jsonrpc"@ != "result"@,
        "jsonrpc"@ != "error"@,
        "id"@ != "result"@,
        "id"@ != "error"@,
        "result"@ != "error"@,
        "code"@ != "message"@,
        "content"@ != "isError"@,
        "type"@ != "text"@,
        "name"@ != "version"@,
        "protocolVersion"@ != "capabilities"@,
        "protocolVersion"@ != "instructions"@,
        "protocolVersion"@ != "serverInfo"@,
        "capabilities"@ != "instructions"@,
        "capabilities"@ != "serverInfo"@,
        "instructions"@ != "serverInfo"@,
        "initialize"@ != "tools/list"@,
        "initialize"@ != "tools/call"@,
        "tools/list"@ != "tools/call"@,
{
    reveal_strlit("jsonrpc");
    reveal_strlit("id");
    reveal_strlit("result");
    reveal_strlit("error");
    reveal_strlit("code");
    reveal_strlit("message");
    reveal_strlit("content");
    reveal_strlit("isError");
    reveal_strlit("type");
    reveal_strlit("text");
    reveal_strlit("name");
    reveal_strlit("version");
    reveal_strlit("protocolVersion");
    reveal_strlit("capabilities");
    reveal_strlit("instructions");
    reveal_strlit("serverInfo");
    reveal_strlit("initialize");
    reveal_strlit("tools/list");
    reveal_strlit("tools/call");
    assert("jsonrpc"@.len() == 7 && "id"@.len() == 2 && "result"@.len() == 6 && "error"@.len() == 5
        && "code"@.len() == 4 && "message"@.len() == 7 && "name"@.len() == 4 && "version"@.len()
        == 7 && "protocolVersion"@.len() == 15 && "capabilities"@.len() == 12
        && "instructions"@.len() == 12 && "serverInfo"@.len() == 10);
    assert("content"@[0] == 'c' && "isError"@[0] == 'i' && "type"@[1] == 'y' && "text"@[1] == 'e'
        && "capabilities"@[0] == 'c' && "instructions"@[0] == 'i');
    assert("initialize"@[0] == 'i' && "tools/list"@[0] == 't' && "tools/call"@[0] == 't'
        && "tools/list"@[6] == 'l' && "tools/call"@[6] == 'c');
}

/// A command is run just where the tool is called with one, and as it was asked for: the command and the
/// directory are those of the arguments, each on its own, and the limit is the one that they give, or
/// two minutes where they give none.
pub proof fn commands_are_run_as_asked(request: JsonView)
    ensures
        ({
            let arguments = field(field(request, "params"@), "arguments"@);
            match handled(request) {
                HandledView::Run(id, job) => {
                    &&& field(request, "method"@) == JsonView::Text("tools/call"@)
                    &&& field(field(request, "params"@), "name"@) == JsonView::Text("run_quiet"@)
                    &&& member(request, "id"@) == Some(id)
                    &&& field(arguments, "command"@) == JsonView::Text(job.command)
                    &&& match field(arguments, "cwd"@) {
                        JsonView::Text(cwd) => job.cwd == Some(cwd),
                        _ => job.cwd is None,
                    }
                    &&& match member(arguments, "timeout_ms"@) {
                        Some(JsonView::Num(NumberView::Pos(u))) => job.timeout_ms == u && 1 <= u
                            <= 600_000,
                        Some(_) => false,
                        None => job.timeout_ms == 120_000,
                    }
                },
                _ => true,
            }
        }),
{
}

/// Whatever else the arguments hold, a call with a command that is not blank is carried out, unless its
/// limit is none or its request has no ID.
pub proof fn calls_with_a_command_are_carried_out(request: JsonView, command: Seq<char>)
    requires
        field(request, "method"@) == JsonView::Text("tools/call"@),
        member(request, "id"@) is Some,
        field(field(request, "params"@), "name"@) == JsonView::Text("run_quiet"@),
        field(field(field(request, "params"@), "arguments"@), "command"@) == JsonView::Text(
            command,
        ),
        trimmed(command).len() > 0,
        match member(field(field(request, "params"@), "arguments"@), "timeout_ms"@) {
            Some(JsonView::Num(NumberView::Pos(u))) => 1 <= u <= 600_000,
            Some(_) => false,
            None => true,
        },
    ensures
        handled(request) is Run,
{
    lemma_keys_differ();
}

/// What is said of a call that is not carried out: the first of its mistakes.
pub proof fn mistaken_calls_are_told_why(params: JsonView)
    ensures
        ({
            let name = field(params, "name"@);
            let arguments = field(params, "arguments"@);
            let command = field(arguments, "command"@);
            let blank = command is Text && trimmed(command->Text_0).len() == 0;
            let sound = params is Object && name == JsonView::Text("run_quiet"@) && arguments
                is Object && command is Text && !blank;
            &&& !(params is Object) ==> called(params) == Call::Err(
                "tool parameters must be an object"@,
            )
            &&& params is Object && !(name is Text) ==> called(params) == Call::Err(
                "tool name must be a string"@,
            )
            &&& params is Object && name is Text && name != JsonView::Text("run_quiet"@) ==> called(
                params,
            ) == Call::Err("unknown tool"@)
            &&& params is Object && name == JsonView::Text("run_quiet"@) && !(arguments is Object)
                ==> called(params) == Call::Err("arguments must be an object"@)
            &&& params is Object && name == JsonView::Text("run_quiet"@) && arguments is Object && !(
            command is Text) ==> called(params) == Call::Err("command must be a string"@)
            &&& params is Object && name == JsonView::Text("run_quiet"@) && arguments is Object
                && blank ==> called(params) == Call::Err("command must not be empty"@)
            &&& sound ==> match member(arguments, "timeout_ms"@) {
                None => called(params) is Ok,
                Some(JsonView::Num(NumberView::Pos(u))) => if 1 <= u <= 600_000 {
                    called(params) is Ok
                } else {
                    called(params) == Call::Err(
                        "timeout_ms must be between 1 and "@ + decimal(600_000),
                    )
                },
                Some(_) => called(params) == Call::Err("timeout_ms must be a positive integer"@),
            }
        }),
{
}

/// What is said of a call: one text, and whether it is an error.
pub proof fn a_result_is_one_text(message: Seq<char>, is_error: bool)
    ensures
        ({
            let said = tool_result(message, is_error);
            let part = field(said, "content"@)->Array_0[0];
            &&& field(said, "isError"@) == JsonView::Bool(is_error)
            &&& field(said, "content"@) is Array && field(said, "content"@)->Array_0.len() == 1
            &&& field(part, "type"@) == JsonView::Text("text"@)
            &&& field(part, "text"@) == JsonView::Text(message)
            &&& said->Object_0.dom() =~= set!["content"@, "isError"@]
            &&& part->Object_0.dom() =~= set!["type"@, "text"@]
        }),
{
    lemma_keys_differ();
}

/// What is said of a command that was run is how it has ended, and nothing of its output: it has its exit
/// code, or that it was not started, not ended in time or not ended by itself.
pub proof fn only_the_end_of_a_command_is_told(code: i32, outcome: RunOutcome)
    ensures
        run_result(None) == tool_result("failed to start command"@, true),
        outcome.timed_out ==> run_result(Some(outcome)) == tool_result(
            "command timed out"@,
            true,
        ),
        !outcome.timed_out && outcome.exit_code is None ==> run_result(Some(outcome))
            == tool_result("failed: process ended without an exit code"@, true),
        !outcome.timed_out && outcome.exit_code == Some(0i32) ==> run_result(Some(outcome))
            == tool_result("ok: exit code 0"@, false),
        !outcome.timed_out && outcome.exit_code == Some(code) && code > 0 ==> run_result(
            Some(outcome),
        ) == tool_result("failed: exit code "@ + decimal(code as nat), true),
        !outcome.timed_out && outcome.exit_code == Some(code) && code < 0 ==> run_result(
            Some(outcome),
        ) == tool_result("failed: exit code "@ + (seq!['-'] + decimal((-code) as nat)), true),
{
}

/// The response to a request has its ID and either the result or the error, with its code and its text,
/// and nothing else.
pub proof fn responses_have_three_members(
    id: JsonView,
    result: JsonView,
    code: i64,
    message: Seq<char>,
)
    ensures
        field(responded(id, result), "jsonrpc"@) == JsonView::Text("2.0"@),
        field(responded(id, result), "id"@) == id,
        field(responded(id, result), "result"@) == result,
        responded(id, result)->Object_0.dom() =~= set!["jsonrpc"@, "id"@, "result"@],
        field(refused(id, code, message), "jsonrpc"@) == JsonView::Text("2.0"@),
        field(refused(id, code, message), "id"@) == id,
        refused(id, code, message)->Object_0.dom() =~= set!["jsonrpc"@, "id"@, "error"@],
        field(field(refused(id, code, message), "error"@), "message"@) == JsonView::Text(message),
        code < 0 ==> field(field(refused(id, code, message), "error"@), "code"@) == JsonView::Num(
            NumberView::Neg(code),
        ),
        code >= 0 ==> field(field(refused(id, code, message), "error"@), "code"@) == JsonView::Num(
            NumberView::Pos(code as u64),
        ),
        field(refused(id, code, message), "error"@)->Object_0.dom() =~= set![
            "code"@,
            "message"@,
        ],
{
    lemma_keys_differ();
}

/// A request is dealt with by its method. One that wants to be introduced is told the protocol, the name
/// and that there are tools; one for the tools gets the only one; one for a call is answered at once
/// where it is mistaken; any other method is not found. Without a method nothing is said.
pub proof fn requests_are_dealt_with_by_their_method(request: JsonView, id: JsonView)
    requires
        member(request, "id"@) == Some(id),
    ensures
        ({
            let method = field(request, "method"@);
            let done = handled(request);
            &&& !(method is Text) ==> done is Silent
            &&& method == JsonView::Text("initialize"@) ==> {
                &&& done is Reply
                &&& field(done->Reply_0, "id"@) == id
                &&& field(field(done->Reply_0, "result"@), "protocolVersion"@) == JsonView::Text(
                    "2024-11-05"@,
                )
                &&& member(
                    field(field(done->Reply_0, "result"@), "capabilities"@),
                    "tools"@,
                ) is Some
                &&& field(field(done->Reply_0, "result"@), "instructions"@) == JsonView::Text(
                    "Use run_quiet only when child stdout and stderr should be discarded. The tool runs shell commands with the permissions of the Codex process."@,
                )
                &&& field(done->Reply_0, "result"@)->Object_0.dom() =~= set![
                    "protocolVersion"@,
                    "capabilities"@,
                    "instructions"@,
                    "serverInfo"@,
                ]
                &&& field(
                    field(field(done->Reply_0, "result"@), "serverInfo"@),
                    "name"@,
                ) == JsonView::Text("codex-command-quiet"@)
                &&& field(
                    field(field(done->Reply_0, "result"@), "serverInfo"@),
                    "version"@,
                ) == JsonView::Text("0.1.0"@)
            }
            &&& method == JsonView::Text("tools/list"@) ==> {
                let tools = field(field(done->Reply_0, "result"@), "tools"@);
                &&& done is Reply
                &&& field(done->Reply_0, "id"@) == id
                &&& tools is Array && tools->Array_0.len() == 1
                &&& tools->Array_0[0] == tool_description()
            }
            &&& method == JsonView::Text("tools/call"@) ==> match called(
                field(request, "params"@),
            ) {
                Ok(job) => done == HandledView::Run(id, job),
                Err(reason) => done is Reply && field(done->Reply_0, "id"@) == id && field(
                    done->Reply_0,
                    "result"@,
                ) == tool_result(reason, true),
            }
            &&& method is Text && method != JsonView::Text("initialize"@) && method
                != JsonView::Text("tools/list"@) && method != JsonView::Text("tools/call"@) ==> {
                &&& done is Reply
                &&& field(done->Reply_0, "id"@) == id
                &&& field(field(done->Reply_0, "error"@), "code"@) == JsonView::Num(
                    NumberView::Neg((-32601) as i64),
                )
                &&& field(field(done->Reply_0, "error"@), "message"@) == JsonView::Text(
                    "method not found"@,
                )
            }
        }),
{
    lemma_keys_differ();
}

/// The tool is described as it is called: under its name, with a command that it needs, and with a
/// directory and a limit that it can do without, of the kinds that it accepts.
pub proof fn the_tool_is_described_as_it_is_called()
    ensures
        ({
            let tool = tool_description();
            let schema = field(tool, "inputSchema"@);
            let properties = field(schema, "properties"@);
            let limit = field(properties, "timeout_ms"@);
            let hints = field(tool, "annotations"@);
            &&& tool->Object_0.dom() =~= set![
                "name"@,
                "description"@,
                "annotations"@,
                "inputSchema"@,
            ]
            &&& schema->Object_0.dom() =~= set![
                "type"@,
                "properties"@,
                "required"@,
                "additionalProperties"@,
            ]
            &&& hints->Object_0.dom() =~= set![
                "readOnlyHint"@,
                "destructiveHint"@,
                "openWorldHint"@,
            ]
            &&& field(hints, "readOnlyHint"@) == JsonView::Bool(false)
            &&& field(hints, "destructiveHint"@) == JsonView::Bool(true)
            &&& field(hints, "openWorldHint"@) == JsonView::Bool(true)
            &&& field(tool, "description"@) == JsonView::Text(
                "Run a shell command with stdin, stdout, and stderr discarded. Return only its exit status."@,
            )
            &&& field(field(properties, "command"@), "description"@) == JsonView::Text(
                "Shell command to execute."@,
            )
            &&& field(field(properties, "cwd"@), "description"@) == JsonView::Text(
                "Optional working directory. Defaults to the MCP server working directory."@,
            )
            &&& field(limit, "description"@) == JsonView::Text("Optional timeout in milliseconds."@)
            &&& field(tool, "name"@) == JsonView::Text("run_quiet"@)
            &&& field(schema, "required"@) == JsonView::Array(seq![JsonView::Text("command"@)])
            &&& field(schema, "additionalProperties"@) == JsonView::Bool(false)
            &&& field(schema, "type"@) == JsonView::Text("object"@)
            &&& properties->Object_0.dom() =~= set!["command"@, "cwd"@, "timeout_ms"@]
            &&& field(field(properties, "command"@), "type"@) == JsonView::Text("string"@)
            &&& field(field(properties, "cwd"@), "type"@) == JsonView::Text("string"@)
            &&& field(limit, "type"@) == JsonView::Text("integer"@)
            &&& field(limit, "minimum"@) == JsonView::Num(NumberView::Pos(1))
            &&& field(limit, "maximum"@) == JsonView::Num(NumberView::Pos(600_000))
            &&& field(limit, "default"@) == JsonView::Num(NumberView::Pos(120_000))
        }),
{
    reveal_strlit("name");
    reveal_strlit("description");
    reveal_strlit("annotations");
    reveal_strlit("inputSchema");
    reveal_strlit("type");
    reveal_strlit("properties");
    reveal_strlit("required");
    reveal_strlit("additionalProperties");
    reveal_strlit("command");
    reveal_strlit("cwd");
    reveal_strlit("timeout_ms");
    reveal_strlit("minimum");
    reveal_strlit("maximum");
    reveal_strlit("default");
    reveal_strlit("readOnlyHint");
    reveal_strlit("destructiveHint");
    reveal_strlit("openWorldHint");
    assert("readOnlyHint"@.len() == 12 && "destructiveHint"@.len() == 15 && "openWorldHint"@.len()
        == 13);
    assert("name"@.len() == 4 && "description"@.len() == 11 && "annotations"@.len() == 11
        && "inputSchema"@.len() == 11 && "type"@.len() == 4 && "properties"@.len() == 10
        && "required"@.len() == 8 && "additionalProperties"@.len() == 20 && "command"@.len() == 7
        && "cwd"@.len() == 3 && "timeout_ms"@.len() == 10 && "minimum"@.len() == 7
        && "maximum"@.len() == 7 && "default"@.len() == 7);
    assert("description"@[0] == 'd' && "annotations"@[0] == 'a' && "inputSchema"@[0] == 'i');
    assert("minimum"@[1] == 'i' && "maximum"@[1] == 'a' && "default"@[1] == 'e');
}

/// A blank line is passed over. Any other line is a request, or is answered with what is wrong with it,
/// to nobody in particular.
pub proof fn lines_are_requests(line: Seq<char>, read: Reading)
    ensures
        trimmed(line).len() == 0 ==> line_handled(line, read) is Silent,
        trimmed(line).len() > 0 && read is Ok ==> line_handled(line, read) == handled(read->Ok_0),
        trimmed(line).len() > 0 && read is Err ==> {
            let said = line_handled(line, read)->Reply_0;
            &&& line_handled(line, read) is Reply
            &&& field(said, "id"@) is Null
            &&& field(field(said, "error"@), "code"@) == JsonView::Num(NumberView::Neg((-32700) as i64))
            &&& field(field(said, "error"@), "message"@) == JsonView::Text(
                "invalid JSON: "@ + read->Err_0,
            )
        },
{
    lemma_keys_differ();
}

/// A command that has ended is told by its exit code, however long it took. One that has not is left alone
/// until its time is up, to the millisecond, and then it is killed, at whatever later look.
pub proof fn a_command_has_its_time(
    exit_code: Option<i32>,
    now: u128,
    later: u128,
    timeout_ms: u64,
)
    requires
        now <= later,
    ensures
        watched(Some(exit_code), now, timeout_ms) == Watch::Ended(
            RunOutcome { exit_code, timed_out: false },
        ),
        watched(None, now, timeout_ms) is Again || watched(None, now, timeout_ms) == Watch::Kill(
            RunOutcome { exit_code: None, timed_out: true },
        ),
        watched(None, now, timeout_ms) is Kill ==> watched(None, later, timeout_ms) is Kill,
        watched(None, now, timeout_ms) is Kill <==> (now as int) / 1_000_000 >= timeout_ms,
{
}

} // verus!
