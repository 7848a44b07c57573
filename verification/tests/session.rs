use codex_silent::backend::{line_of, Client, Fault};
use codex_silent::codec::{decode, parse};
use codex_silent::conversation::Kind;
use codex_silent::json::Json;
use codex_silent::options::{Options, HELP};
use codex_silent::requests::answer;
use codex_silent::session::{
    failure_text, handshake, handshake_failure, handshake_text, handshake_timeout, initialize,
    resume_hint, supported_request, App, Handshake, Origin, Outgoing, Purpose, Step, Submission,
    Then, Trouble, Waiting,
};

fn json(text: &str) -> Json {
    parse(text).unwrap()
}

fn test_options() -> Options {
    Options {
        codex: "codex".to_string(),
        cwd: "/work".to_string(),
        config: Vec::new(),
        resume: None,
        model: None,
        show: false,
        check: false,
        replay: None,
        log_dir: None,
    }
}

fn fixture() -> (Options, Client, App) {
    let mut app = App::new(false, false);
    app.thread = Some("thread-test".to_string());
    (test_options(), Client::new(), app)
}

/// Takes in a message, and everything that is written in return.
fn message(app: &mut App, client: &mut Client, options: &Options, text: Json) -> Vec<Json> {
    let mut written = Vec::new();
    let mut next = app.message(text, client).unwrap();
    while let Some(outgoing) = next {
        written.push(decode(&outgoing.frame).unwrap());
        next = app.delivered(outgoing.after, client, options).unwrap();
    }
    written
}

/// Submits the input, and gives what is written.
fn submit(app: &mut App, client: &mut Client, options: &Options) -> Option<Json> {
    match app.submit(client, options, "/logs").unwrap() {
        Submission::Done => None,
        Submission::Quit => panic!("quit"),
        Submission::Send(outgoing) => {
            let frame = decode(&outgoing.frame).unwrap();
            assert!(app.delivered(outgoing.after, client, options).unwrap().is_none());
            Some(frame)
        }
    }
}

fn write(app: &mut App, text: &str) {
    app.input = text.to_string();
    app.cursor = text.len();
}

fn approval(id: &str, command: &str) -> Json {
    let params = json(
        r#"{"threadId":"thread-test","turnId":"turn-test","startedAtMs":0,"cwd":"/work",
        "availableDecisions":["accept","decline","cancel"]}"#,
    );
    json(r#"{"method":"item/commandExecution/requestApproval"}"#)
        .with("id", Json::text(id))
        .with(
            "params",
            params.with("itemId", Json::text(id)).with("command", Json::text(command)),
        )
}

fn resolved(id: &str) -> Json {
    json(r#"{"method":"serverRequest/resolved"}"#).with(
        "params",
        json(r#"{"threadId":"thread-test"}"#).with("requestId", Json::text(id)),
    )
}

fn reply(id: &str, decision: &str) -> Option<Json> {
    Some(
        json("{}")
            .with("id", Json::text(id))
            .with("result", json("{}").with("decision", Json::text(decision))),
    )
}

fn last(app: &App) -> &str {
    app.conversation.entries.last().unwrap().text.as_str()
}

#[test]
fn approval_enrichment_keeps_command_context_without_revealing_output() {
    let (options, mut client, mut app) = fixture();
    message(
        &mut app,
        &mut client,
        &options,
        json(
            r#"{"method":"item/started","params":{"threadId":"thread-test","turnId":"turn-test","item":{
            "id":"cmd","type":"commandExecution","status":"inProgress","command":"printf APPROVAL_COMMAND",
            "cwd":"/safe/cwd","aggregatedOutput":"PRIVATE_AGGREGATED_OUTPUT"}}}"#,
        ),
    );
    message(
        &mut app,
        &mut client,
        &options,
        json(
            r#"{"method":"item/commandExecution/outputDelta","params":{"threadId":"thread-test",
            "turnId":"turn-test","itemId":"cmd","delta":"PRIVATE_STREAMED_OUTPUT"}}"#,
        ),
    );
    let request = json(
        r#"{"id":"first","method":"item/commandExecution/requestApproval","params":{
        "threadId":"thread-test","turnId":"turn-test","itemId":"cmd","startedAtMs":0,"cwd":"/work",
        "availableDecisions":["accept","decline","cancel"]}}"#,
    );
    assert!(message(&mut app, &mut client, &options, request).is_empty());
    let visible: Vec<&str> =
        app.conversation.visible(false).iter().map(|entry| entry.text.as_str()).collect();
    let visible = visible.join("\n");
    assert!(visible.contains("APPROVAL_COMMAND"));
    assert!(visible.contains("/safe/cwd"));
    assert!(!visible.contains("PRIVATE_AGGREGATED_OUTPUT"));
    assert!(!visible.contains("PRIVATE_STREAMED_OUTPUT"));
    assert!(app
        .conversation
        .visible(true)
        .iter()
        .any(|entry| entry.text.contains("PRIVATE_AGGREGATED_OUTPUT")
            && entry.text.contains("PRIVATE_STREAMED_OUTPUT")));
    write(&mut app, "yes");
    assert_eq!(submit(&mut app, &mut client, &options), reply("first", "accept"));
}

#[test]
fn queued_approvals_answer_only_the_displayed_front_and_restore_prompt() {
    let (options, mut client, mut app) = fixture();
    app.turn = Some("turn-test".to_string());
    let draft = "Follow up on λ next.\nKeep this detail.";
    let cursor = "Follow up on λ".len();
    app.input = draft.to_string();
    app.cursor = cursor;
    let sent = message(
        &mut app,
        &mut client,
        &options,
        approval("first", "FIRST_VISIBLE_COMMAND"),
    );
    assert!(sent.is_empty());
    assert!(app.input.is_empty());
    assert_eq!(app.cursor, 0);
    assert!(last(&app).contains("FIRST_VISIBLE_COMMAND"));

    write(&mut app, "yes");
    let displayed = app.conversation.entries.len();
    let sent = message(
        &mut app,
        &mut client,
        &options,
        approval("second", "SECOND_QUEUED_COMMAND"),
    );
    assert!(sent.is_empty());
    assert_eq!(app.pending.len(), 2);
    assert!(app.pending[0].at("id").is_text("first"));
    assert_eq!(app.conversation.entries.len(), displayed);
    assert!(!app
        .conversation
        .entries
        .iter()
        .any(|entry| entry.text.contains("SECOND_QUEUED_COMMAND")));
    assert_eq!(app.input, "yes");
    assert_eq!(app.cursor, 3);

    assert_eq!(submit(&mut app, &mut client, &options), reply("first", "accept"));
    assert_eq!(app.pending.len(), 1);
    assert!(app.pending[0].at("id").is_text("second"));
    assert!(last(&app).contains("SECOND_QUEUED_COMMAND"));
    assert!(app.input.is_empty());
    assert_eq!(app.cursor, 0);

    write(&mut app, "no");
    assert_eq!(submit(&mut app, &mut client, &options), reply("second", "decline"));
    assert!(app.pending.is_empty());
    assert_eq!(app.input, draft);
    assert_eq!(app.cursor, cursor);
}

#[test]
fn resolving_front_clears_stale_approval_before_presenting_next() {
    let (options, mut client, mut app) = fixture();
    app.turn = Some("turn-test".to_string());
    app.input = "Saved follow-up".to_string();
    app.cursor = 5;
    message(&mut app, &mut client, &options, approval("first", "FIRST_COMMAND"));
    message(&mut app, &mut client, &options, approval("second", "SECOND_COMMAND"));
    write(&mut app, "yes");

    assert!(message(&mut app, &mut client, &options, resolved("first")).is_empty());
    assert_eq!(app.pending.len(), 1);
    assert!(app.pending[0].at("id").is_text("second"));
    assert!(last(&app).contains("SECOND_COMMAND"));
    assert!(app.input.is_empty());
    assert_eq!(app.cursor, 0);
    assert_eq!(submit(&mut app, &mut client, &options), None);
    assert_eq!(app.pending.len(), 1);

    write(&mut app, "no");
    assert!(message(&mut app, &mut client, &options, resolved("second")).is_empty());
    assert!(app.pending.is_empty());
    assert_eq!(app.input, "Saved follow-up");
    assert_eq!(app.cursor, 5);
}

#[test]
fn resolving_queued_request_preserves_active_approval_input() {
    let (options, mut client, mut app) = fixture();
    app.turn = Some("turn-test".to_string());
    message(&mut app, &mut client, &options, approval("first", "FIRST_COMMAND"));
    message(&mut app, &mut client, &options, approval("second", "SECOND_COMMAND"));
    app.input = "yes".to_string();
    app.cursor = 2;
    let displayed = app.conversation.entries.len();

    assert!(message(&mut app, &mut client, &options, resolved("second")).is_empty());
    assert_eq!(app.pending.len(), 1);
    assert!(app.pending[0].at("id").is_text("first"));
    assert_eq!(app.conversation.entries.len(), displayed);
    assert_eq!(app.input, "yes");
    assert_eq!(app.cursor, 2);
}

#[test]
fn late_turn_start_reply_cannot_resurrect_a_completed_turn() {
    let (options, mut client, mut app) = fixture();
    write(&mut app, "First prompt");
    let sent = submit(&mut app, &mut client, &options).unwrap();
    assert!(app.busy());
    assert!(sent.at("method").is_text("turn/start"));
    let request_id = sent.at("id").as_u64().unwrap();

    message(
        &mut app,
        &mut client,
        &options,
        json(
            r#"{"method":"turn/started","params":{"threadId":"thread-test","turn":{"id":"first-turn","status":"inProgress"}}}"#,
        ),
    );
    assert!(app.busy());
    message(
        &mut app,
        &mut client,
        &options,
        json(
            r#"{"method":"turn/completed","params":{"threadId":"thread-test","turn":{"id":"first-turn","status":"completed"}}}"#,
        ),
    );
    assert!(!app.busy());

    message(
        &mut app,
        &mut client,
        &options,
        json(r#"{"result":{"turn":{"id":"first-turn","status":"inProgress"}}}"#)
            .with("id", Json::from_u64(request_id)),
    );
    assert!(!app.busy());
    assert!(app.turn.is_none());
    assert!(!app.waiting.contains_key(&request_id));

    write(&mut app, "Next prompt");
    let sent = submit(&mut app, &mut client, &options).unwrap();
    assert!(sent.at("method").is_text("turn/start"));
    assert!(sent.at("params").at("input").as_array().unwrap()[0]
        .at("text")
        .is_text("Next prompt"));
    message(
        &mut app,
        &mut client,
        &options,
        json(r#"{"result":{"turn":{"id":"next-turn","status":"inProgress"}}}"#)
            .with("id", sent.at("id").clone()),
    );
    assert!(app.busy());
    assert_eq!(app.turn.as_deref(), Some("next-turn"));
}

#[test]
fn a_turn_is_started_with_the_text_of_the_input() {
    let (options, mut client, mut app) = fixture();
    write(&mut app, "  Hello there \n");
    assert_eq!(
        submit(&mut app, &mut client, &options).unwrap(),
        json(
            r#"{"id":1,"method":"turn/start","params":{"threadId":"thread-test","input":[{"type":"text","text":"Hello there"}]}}"#
        )
    );
    assert_eq!(app.status, "Working · Ctrl+C interrupt");
    assert!(app.input.is_empty());
    assert_eq!(app.waiting.get(&1), Some(&Waiting::Turn));
    write(&mut app, "More");
    assert_eq!(submit(&mut app, &mut client, &options), None);
    assert_eq!(app.input, "More");
    assert_eq!(
        last(&app),
        "A turn is running. Ctrl+C interrupts it; your next message stays in the input box."
    );
}

#[test]
fn the_first_reply_acknowledges_and_opens_a_thread() {
    let mut options = test_options();
    options.model = Some("large".to_string());
    let mut client = Client::new();
    let (id, frame) = initialize(&mut client).unwrap();
    assert_eq!(
        decode(&frame).unwrap(),
        json(
            r#"{"id":1,"method":"initialize","params":{"clientInfo":{"name":"codex_silent","title":"Codex Silent","version":"0.2.0"},"capabilities":{"experimentalApi":true}}}"#
        )
    );
    let mut app = App::new(false, false);
    assert_eq!(app.status, "Connecting");
    app.begin(id);
    let sent = message(&mut app, &mut client, &options, json(r#"{"id":1,"result":{}}"#));
    assert_eq!(sent.len(), 2);
    assert_eq!(sent[0], json(r#"{"method":"initialized","params":{}}"#));
    assert_eq!(
        sent[1],
        json(r#"{"id":2,"method":"thread/start","params":{"cwd":"/work","model":"large"}}"#)
    );
    assert_eq!(app.status, "Opening conversation");
    let reply = json(
        r#"{"id":2,"result":{"thread":{"id":"T","turns":[{"id":"o","items":[{"type":"agentMessage","id":"a","text":"Old answer"}]}]}}}"#,
    );
    assert!(message(&mut app, &mut client, &options, reply).is_empty());
    assert_eq!(app.thread.as_deref(), Some("T"));
    assert_eq!(app.status, "Ready");
    assert_eq!(last(&app), "Old answer");
}

#[test]
fn a_thread_can_be_resumed_from_the_start() {
    let mut options = test_options();
    options.resume = Some("T7".to_string());
    let mut client = Client::new();
    let mut app = App::new(false, false);
    app.begin(9);
    let sent = message(&mut app, &mut client, &options, json(r#"{"id":9,"result":{}}"#));
    assert_eq!(
        sent[1],
        json(r#"{"id":1,"method":"thread/resume","params":{"cwd":"/work","threadId":"T7"}}"#)
    );
}

#[test]
fn a_thread_without_an_id_is_trouble() {
    let (options, mut client, mut app) = fixture();
    write(&mut app, "/new");
    assert!(submit(&mut app, &mut client, &options).is_some());
    let trouble =
        app.message(json(r#"{"id":1,"result":{"thread":{}}}"#), &mut client).unwrap_err();
    assert_eq!(trouble, Trouble::NoThread);
    assert_eq!(trouble.text(), "Codex returned a thread without an id");
}

#[test]
fn failed_requests_are_shown() {
    let (options, mut client, mut app) = fixture();
    write(&mut app, "Hello");
    submit(&mut app, &mut client, &options);
    message(&mut app, &mut client, &options, json(r#"{"id":1,"error":{"message":"No quota"}}"#));
    assert!(!app.busy());
    assert_eq!(app.status, "Request failed");
    assert_eq!(last(&app), "No quota");
}

#[test]
fn unsupported_requests_are_refused_with_a_notice() {
    let (options, mut client, mut app) = fixture();
    let sent = message(
        &mut app,
        &mut client,
        &options,
        json(r#"{"id":"x","method":"item/tool/call","params":{}}"#),
    );
    assert_eq!(
        sent,
        [json(
            r#"{"id":"x","error":{"code":-32000,"message":"Request is not supported by this version of codex-silent"}}"#
        )]
    );
    assert!(app.pending.is_empty());
    assert_eq!(
        last(&app),
        "Unsupported request: item/tool/call. It was rejected. Update codex-silent or resume this thread in Codex."
    );
    assert!(supported_request("mcpServer/elicitation/request"));
    assert!(!supported_request("item/tool/call"));
}

#[test]
fn events_of_other_threads_are_ignored() {
    let (options, mut client, mut app) = fixture();
    message(
        &mut app,
        &mut client,
        &options,
        json(r#"{"method":"turn/started","params":{"threadId":"other","turn":{"id":"x"}}}"#),
    );
    assert!(!app.busy());
    message(
        &mut app,
        &mut client,
        &options,
        json(r#"{"method":"warning","params":{"message":"For all"}}"#),
    );
    assert_eq!(last(&app), "For all");
}

#[test]
fn a_completed_turn_voids_open_requests_and_restores_the_draft() {
    let (options, mut client, mut app) = fixture();
    write(&mut app, "draft");
    message(&mut app, &mut client, &options, approval("first", "ls"));
    write(&mut app, "ye");
    message(
        &mut app,
        &mut client,
        &options,
        json(
            r#"{"method":"turn/completed","params":{"threadId":"thread-test","turn":{"id":"t","status":"failed","error":{"message":"Crashed"}}}}"#,
        ),
    );
    assert!(app.pending.is_empty());
    assert_eq!(app.input, "draft");
    assert_eq!(app.status, "failed");
    assert_eq!(last(&app), "Crashed");
    assert_eq!(app.finished_turn.as_deref(), Some("t"));
}

#[test]
fn mistaken_answers_send_nothing_and_stay_in_the_input() {
    let (options, mut client, mut app) = fixture();
    message(&mut app, &mut client, &options, approval("first", "ls"));
    write(&mut app, "perhaps");
    assert_eq!(submit(&mut app, &mut client, &options), None);
    assert_eq!(app.input, "perhaps");
    assert_eq!(app.pending.len(), 1);
    assert_eq!(last(&app), "Enter yes, no, or cancel. Empty input never approves a request.");
}

#[test]
fn local_commands_change_only_the_display() {
    let (options, mut client, mut app) = fixture();
    for (command, expanded) in
        [("/show", true), ("/hide", false), ("/toggle", true), (" /toggle ", false)]
    {
        write(&mut app, command);
        assert_eq!(submit(&mut app, &mut client, &options), None);
        assert_eq!(app.view.expanded, expanded);
        assert!(app.input.is_empty());
    }
    write(&mut app, "/logs");
    submit(&mut app, &mut client, &options);
    assert_eq!(last(&app), "Session logs: /logs");
    write(&mut app, "/help");
    submit(&mut app, &mut client, &options);
    assert_eq!(last(&app), HELP);
    write(&mut app, "/wat");
    submit(&mut app, &mut client, &options);
    assert!(last(&app).starts_with("Unknown or unavailable command."));
    for command in ["/quit", "/exit"] {
        write(&mut app, command);
        assert!(matches!(
            app.submit(&mut client, &options, "/logs").unwrap(),
            Submission::Quit
        ));
    }
    assert_eq!(client.request("m", Json::Null).unwrap().0, 1);
}

#[test]
fn threads_are_opened_only_while_idle() {
    let (options, mut client, mut app) = fixture();
    write(&mut app, "/resume  /resume T9 ");
    assert_eq!(
        submit(&mut app, &mut client, &options).unwrap(),
        json(r#"{"id":1,"method":"thread/resume","params":{"cwd":"/work","threadId":"/resume T9"}}"#)
    );
    assert!(app.thread.is_none());
    write(&mut app, "Hello");
    assert_eq!(submit(&mut app, &mut client, &options), None);
    assert_eq!(
        last(&app),
        "Still connecting to Codex. Your message stays in the input box."
    );
    app.thread = Some("T".to_string());
    write(&mut app, "/new");
    let sent = submit(&mut app, &mut client, &options).unwrap();
    assert!(sent.at("method").is_text("thread/start"));
    assert_eq!(
        last(&app),
        "Starting a new conversation. Earlier answers remain visible here."
    );
    app.turn = Some("t".to_string());
    for command in ["/new", "/resume T"] {
        write(&mut app, command);
        assert_eq!(submit(&mut app, &mut client, &options), None);
        assert!(last(&app).starts_with("Unknown or unavailable command."));
    }
}

#[test]
fn replay_is_read_only_and_shows_the_log() {
    let mut app = App::new(true, true);
    let options = test_options();
    let mut client = Client::new();
    assert_eq!(app.status, "Replay");
    assert!(app.view.expanded);
    app.replay_line(r#"{"id":1,"result":{"thread":{"id":"T","turns":[]}}}"#).unwrap();
    app.replay_line(r#"{"method":"item/completed","params":{"threadId":"T","turnId":"t","item":{"type":"agentMessage","id":"a","text":"Hi"}}}"#).unwrap();
    app.replay_line(r#"{"method":"warning","params":{"threadId":"U","message":"no"}}"#).unwrap();
    app.replay_line(r#"{"id":2,"method":"item/fileChange/requestApproval","params":{"reason":"WHY"}}"#).unwrap();
    app.replay_line(r#"{"id":3,"method":"odd"}"#).unwrap();
    assert_eq!(app.thread.as_deref(), Some("T"));
    assert_eq!(app.conversation.entries.len(), 3);
    assert_eq!(app.conversation.entries[0].text, "Hi");
    assert!(app.conversation.entries[1].text.contains("Reason: WHY"));
    assert!(app.conversation.entries[2].text.starts_with("Unsupported request: odd."));
    assert!(app.pending.is_empty());
    assert_eq!(
        app.replay_line("nonsense").unwrap_err(),
        "expected ident at line 1 column 2"
    );
    write(&mut app, "Hello");
    assert_eq!(submit(&mut app, &mut client, &options), None);
    assert_eq!(last(&app), "Replay is read-only. Use /show, /hide, or /quit.");
}

#[test]
fn only_a_known_turn_is_interrupted() {
    let (options, mut client, mut app) = fixture();
    app.starting_turn = true;
    assert!(matches!(app.interrupt(&mut client).unwrap(), Submission::Done));
    assert_eq!(app.status, "Waiting for turn to start; Ctrl+Q exits");
    app.turn = Some("t".to_string());
    let outgoing = match app.interrupt(&mut client).unwrap() {
        Submission::Send(outgoing) => outgoing,
        _ => panic!("not sent"),
    };
    assert_eq!(
        decode(&outgoing.frame).unwrap(),
        json(r#"{"id":1,"method":"turn/interrupt","params":{"threadId":"thread-test","turnId":"t"}}"#)
    );
    app.delivered(outgoing.after, &mut client, &options).unwrap();
    assert_eq!(app.status, "Interrupting");
    assert_eq!(app.waiting.get(&1), Some(&Waiting::Interrupt));
}

#[test]
fn a_lost_server_leaves_the_conversation_and_the_input() {
    let (options, mut client, mut app) = fixture();
    app.turn = Some("t".to_string());
    message(&mut app, &mut client, &options, approval("first", "ls"));
    write(&mut app, "yes");
    let entries = app.conversation.entries.len();
    assert!(app.disconnected(&mut client, "/logs/stderr.log", "Gone."));
    assert!(!app.disconnected(&mut client, "/logs/stderr.log", "Gone."));
    assert!(!app.busy());
    assert!(app.pending.is_empty());
    assert!(app.waiting.is_empty());
    assert_eq!(app.input, "yes");
    assert_eq!(app.status, "Disconnected · /quit to exit");
    assert_eq!(app.conversation.entries.len(), entries + 2);
    assert_eq!(app.conversation.entries[entries].kind, Kind::Notice);
    assert_eq!(
        last(&app),
        "Gone.\nCodex stderr: /logs/stderr.log\nUse /logs to locate this session or /quit to exit."
    );
    write(&mut app, "Hello");
    assert!(matches!(
        app.submit(&mut client, &options, "/logs"),
        Err(Fault::ShutDown)
    ));
}

#[test]
fn a_failed_write_leaves_the_input_where_it_is() {
    let (options, mut client, mut app) = fixture();
    message(&mut app, &mut client, &options, approval("first", "ls"));
    write(&mut app, "yes");
    let outgoing = match app.submit(&mut client, &options, "/logs").unwrap() {
        Submission::Send(outgoing) => outgoing,
        _ => panic!("not sent"),
    };
    assert!(matches!(outgoing.after, Then::Answered));
    assert_eq!(app.input, "yes");
    assert_eq!(app.pending.len(), 1);
    assert_eq!(
        failure_text(Purpose::Request, "broken pipe"),
        "Could not send request: broken pipe. Delivery is unknown; it will not be retried."
    );
    assert_eq!(
        failure_text(Purpose::Interrupt, "e"),
        "Could not send interrupt: e. Delivery is unknown; it will not be retried."
    );
}

#[test]
fn a_slow_start_is_mentioned_after_a_minute() {
    let mut app = App::new(false, false);
    assert!(!app.startup_overdue(true, 60_000_000_000, "/e"));
    assert!(!app.startup_overdue(false, 61_000_000_000, "/e"));
    assert!(app.startup_overdue(true, 60_000_000_001, "/e"));
    assert_eq!(last(&app), "Codex is still connecting. Check /e. Ctrl+Q exits.");
    app.thread = Some("T".to_string());
    assert!(!app.startup_overdue(true, 61_000_000_000, "/e"));
}

#[test]
fn the_handshake_is_decided_by_the_reply_to_its_request() {
    assert!(matches!(handshake(&json(r#"{"method":"x"}"#), 1), Handshake::Open));
    assert!(matches!(handshake(&json(r#"{"id":2,"result":{}}"#), 1), Handshake::Open));
    assert!(matches!(handshake(&json(r#"{"id":1,"result":{}}"#), 1), Handshake::Passed));
    match handshake(&json(r#"{"id":1,"error":{"message":"Old"}}"#), 1) {
        Handshake::Refused(reason) => assert_eq!(reason, "Old"),
        _ => panic!("not refused"),
    }
    assert_eq!(
        handshake_text("codex", "/work", "/logs"),
        "Codex app-server handshake passed.\nBackend: codex\nWorking directory: /work\nLogs: /logs"
    );
    assert_eq!(
        handshake_timeout("timed out", "/e"),
        "Codex did not complete initialization: timed out. Check /e"
    );
    assert_eq!(handshake_failure("EOF", "/e"), "EOF. Check /e");
    assert_eq!(resume_hint("T"), "Resume: codex-silent --resume T");
}

#[test]
fn a_decision_rests_on_what_the_input_was_read_as() {
    let (options, mut client, mut app) = fixture();
    let form = json(
        r#"{"id":"f","method":"mcpServer/elicitation/request","params":{"mode":"form"}}"#,
    );
    message(&mut app, &mut client, &options, form);
    write(&mut app, "anything");
    match app.decide(&Ok(json(r#"{"a":1}"#))) {
        Step::Reply(result) => assert_eq!(
            result,
            json(r#"{"action":"accept","content":{"a":1}}"#)
        ),
        _ => panic!("not answered"),
    }
    match app.decide(&Err("broken".to_string())) {
        Step::Mistake(reason) => assert_eq!(
            reason,
            "Submit form answers as a JSON object, or enter no/cancel: broken"
        ),
        _ => panic!("answered"),
    }
    let read = Ok(json(r#"{"b":2}"#));
    match app.submit_read(&read, &mut client, &options, "/logs").unwrap() {
        Submission::Send(outgoing) => assert_eq!(
            decode(&outgoing.frame).unwrap(),
            json(r#"{"id":"f","result":{"action":"accept","content":{"b":2}}}"#)
        ),
        _ => panic!("not sent"),
    }
}

#[test]
fn opening_a_thread_forgets_the_old_one() {
    let (options, mut client, mut app) = fixture();
    write(&mut app, "kept");
    let outgoing = Outgoing { frame: Vec::new(), after: Then::Opening(5, Origin::Startup) };
    app.delivered(outgoing.after, &mut client, &options).unwrap();
    assert!(app.thread.is_none());
    assert_eq!(app.input, "kept");
    assert_eq!(app.waiting.get(&5), Some(&Waiting::Thread));
}

#[test]
fn what_is_on_the_screen_never_reaches_the_server() {
    let mut frames = Vec::new();
    for toggled in [false, true] {
        let (options, mut client, mut app) = fixture();
        if toggled {
            app.view.toggle();
            app.view.home();
            app.conversation.notice("only on display");
        }
        message(&mut app, &mut client, &options, approval("first", "ls"));
        write(&mut app, "yes");
        let answer = submit(&mut app, &mut client, &options);
        write(&mut app, "Hello");
        let turn = submit(&mut app, &mut client, &options);
        frames.push((answer, turn));
    }
    assert_eq!(frames[0], frames[1]);
}

#[test]
fn the_supported_requests_are_those_with_an_answer_of_their_own() {
    for (method, input) in [
        ("item/commandExecution/requestApproval", ""),
        ("item/fileChange/requestApproval", ""),
        ("item/permissions/requestApproval", "no"),
        ("item/tool/requestUserInput", "{"),
        ("mcpServer/elicitation/request", "no"),
    ] {
        assert!(supported_request(method));
        let request = json("{}").with("method", Json::text(method));
        let refused = match answer(&request, input) {
            Ok(_) => false,
            Err(error) => error.contains("Unsupported server request"),
        };
        assert!(!refused);
    }
    for method in ["item/tool/call", "mcpServer/elicitation", ""] {
        assert!(!supported_request(method));
        let request = json("{}").with("method", Json::text(method));
        for input in ["", "yes", "no", "cancel", "{"] {
            let error = answer(&request, input).unwrap_err();
            assert!(error.starts_with("Unsupported server request "));
        }
    }
}

#[test]
fn a_logged_message_replays_as_it_was() {
    let texts = [
        r#"{"id":1,"result":{"thread":{"id":"T","turns":[]}}}"#,
        r#"{"method":"item/completed","params":{"threadId":"T","item":{"type":"agentMessage","id":"a","text":"Hi\n\u0000λ\"\\"}}}"#,
        r#"{"method":"warning","params":{"threadId":"T","message":"中\r\n"}}"#,
    ];
    let mut direct = App::new(false, true);
    let mut logged = App::new(false, true);
    for text in texts {
        let message = json(text);
        let bytes = line_of(&message);
        assert_eq!(bytes.iter().filter(|b| **b == b'\n').count(), 1);
        let log = String::from_utf8(bytes).unwrap();
        let lines: Vec<&str> = log.lines().collect();
        assert_eq!(lines.len(), 1);
        assert_eq!(parse(lines[0]).unwrap(), message);
        direct.replay_message(message);
        logged.replay_line(lines[0]).unwrap();
    }
    assert_eq!(direct.thread, logged.thread);
    assert_eq!(direct.conversation.revision, logged.conversation.revision);
    assert_eq!(direct.conversation.entries.len(), 2);
    for (a, b) in direct.conversation.entries.iter().zip(&logged.conversation.entries) {
        assert_eq!((a.kind, &a.label, &a.text), (b.kind, &b.label, &b.text));
    }
    assert!(logged.replay_line("").is_err());
    assert!(logged.replay_line("  ").is_err());
}
