use codex_silent::codec::{compact, parse};
use codex_silent::json::Json;
use codex_silent::quiet::{
    call_tool, finish, handle_line, handle_read, handle_request, parse_timeout, response_line,
    run_response, shell, tool_definition, watch, Handled, RunOutcome, Watch, DEFAULT_TIMEOUT_MS,
    MAX_TIMEOUT_MS, PROTOCOL_VERSION,
};

fn json(text: &str) -> Json {
    parse(text).unwrap()
}

fn ended(code: i32) -> Option<RunOutcome> {
    Some(RunOutcome { exit_code: Some(code), timed_out: false })
}

fn reply(handled: Handled) -> Json {
    match handled {
        Handled::Reply(response) => response,
        _ => panic!("no reply"),
    }
}

fn said(result: &Json) -> &Json {
    result.at("content").as_array().unwrap()[0].at("text")
}

#[test]
fn quiet_tool_returns_status_without_child_output() {
    let job = call_tool(&json(
        r#"{"name":"run_quiet","arguments":{"command":"printf secret-output"}}"#,
    ))
    .unwrap();
    assert_eq!(job.command, "printf secret-output");
    let result = finish(ended(0));
    assert_eq!(*result.at("isError"), json("false"));
    assert!(said(&result).is_text("ok: exit code 0"));
    assert!(!compact(&result).contains("secret-output"));
}

#[test]
fn failed_command_returns_only_exit_status() {
    let job =
        call_tool(&json(r#"{"name":"run_quiet","arguments":{"command":"exit 7"}}"#)).unwrap();
    assert_eq!(job.command, "exit 7");
    let result = finish(ended(7));
    assert_eq!(*result.at("isError"), json("true"));
    assert!(said(&result).is_text("failed: exit code 7"));
}

#[test]
fn initialize_is_wrapped_in_json_rpc_response() {
    let response =
        reply(handle_request(&json(r#"{"jsonrpc":"2.0","id":1,"method":"initialize"}"#)));
    assert!(response.at("jsonrpc").is_text("2.0"));
    assert_eq!(*response.at("id"), json("1"));
    assert!(response.at("result").at("protocolVersion").is_text(PROTOCOL_VERSION));
}

#[test]
fn bad_calls_are_explained() {
    for (params, reason) in [
        ("[]", "tool parameters must be an object"),
        ("{}", "tool name must be a string"),
        (r#"{"name":"other"}"#, "unknown tool"),
        (r#"{"name":"run_quiet"}"#, "arguments must be an object"),
        (r#"{"name":"run_quiet","arguments":{}}"#, "command must be a string"),
        (r#"{"name":"run_quiet","arguments":{"command":" \t"}}"#, "command must not be empty"),
        (
            r#"{"name":"run_quiet","arguments":{"command":"a","timeout_ms":-1}}"#,
            "timeout_ms must be a positive integer",
        ),
        (
            r#"{"name":"run_quiet","arguments":{"command":"a","timeout_ms":600001}}"#,
            "timeout_ms must be between 1 and 600000",
        ),
    ] {
        assert_eq!(call_tool(&json(params)).unwrap_err(), reason);
        let request = json(r#"{"id":"x","method":"tools/call"}"#).with("params", json(params));
        let response = reply(handle_request(&request));
        assert!(response.at("id").is_text("x"));
        assert!(said(response.at("result")).is_text(reason));
    }
}

#[test]
fn timeouts_have_a_default_and_limits() {
    assert_eq!(parse_timeout(None), Ok(DEFAULT_TIMEOUT_MS));
    assert_eq!(parse_timeout(Some(&json("1"))), Ok(1));
    assert_eq!(parse_timeout(Some(&json("600000"))), Ok(MAX_TIMEOUT_MS));
    assert!(parse_timeout(Some(&json("0"))).is_err());
    assert!(parse_timeout(Some(&json("null"))).is_err());
    assert!(parse_timeout(Some(&json("1.5"))).is_err());
}

#[test]
fn calls_name_their_directory_and_limit() {
    let request = json(
        r#"{"id":5,"method":"tools/call","params":{"name":"run_quiet","arguments":{"command":"make","cwd":"/w","timeout_ms":30}}}"#,
    );
    match handle_request(&request) {
        Handled::Run(id, job) => {
            assert_eq!(id, json("5"));
            assert_eq!(job.command, "make");
            assert_eq!(job.cwd.as_deref(), Some("/w"));
            assert_eq!(job.timeout_ms, 30);
            assert_eq!(
                run_response(id, Some(RunOutcome { exit_code: None, timed_out: true })),
                json(
                    r#"{"jsonrpc":"2.0","id":5,"result":{"content":[{"type":"text","text":"command timed out"}],"isError":true}}"#
                )
            );
        }
        _ => panic!("not run"),
    }
}

#[test]
fn outcomes_have_their_words() {
    assert!(said(&finish(None)).is_text("failed to start command"));
    assert!(said(&finish(ended(-1))).is_text("failed: exit code -1"));
    let killed = Some(RunOutcome { exit_code: None, timed_out: false });
    assert!(said(&finish(killed)).is_text("failed: process ended without an exit code"));
}

#[test]
fn a_command_is_watched_until_it_ends_or_takes_too_long() {
    let done = RunOutcome { exit_code: Some(3), timed_out: false };
    assert_eq!(watch(Some(Some(3)), u128::MAX, 1), Watch::Ended(done));
    assert_eq!(watch(None, 29_999_999, 30), Watch::Again);
    let late = RunOutcome { exit_code: None, timed_out: true };
    assert_eq!(watch(None, 30_000_000, 30), Watch::Kill(late));
    assert_eq!(shell(false), ("sh", "-c"));
    assert_eq!(shell(true), ("cmd", "/C"));
}

#[test]
fn lines_are_answered_or_passed_over() {
    assert!(matches!(handle_line("  "), Handled::Silent));
    assert!(matches!(handle_line(r#"{"method":"initialize"}"#), Handled::Silent));
    assert!(matches!(handle_line(r#"{"id":1}"#), Handled::Silent));
    assert_eq!(
        reply(handle_line("nope")),
        json(
            r#"{"jsonrpc":"2.0","id":null,"error":{"code":-32700,"message":"invalid JSON: expected ident at line 1 column 2"}}"#
        )
    );
    assert_eq!(
        reply(handle_line(r#"{"id":null,"method":"odd"}"#)),
        json(r#"{"jsonrpc":"2.0","id":null,"error":{"code":-32601,"message":"method not found"}}"#)
    );
    assert_eq!(
        reply(handle_read("x", &Err("why".to_string())))
            .at("error")
            .at("message")
            .as_str(),
        Some("invalid JSON: why")
    );
    assert_eq!(response_line(&json(r#"{"a":"\n"}"#)), b"{\"a\":\"\\n\"}\n");
}

#[test]
fn the_tool_is_listed() {
    let response = reply(handle_line(r#"{"id":2,"method":"tools/list"}"#));
    let tools = response.at("result").at("tools").as_array().unwrap();
    assert_eq!(tools.len(), 1);
    assert_eq!(tools[0], tool_definition());
    let limit = tools[0].at("inputSchema").at("properties").at("timeout_ms");
    assert_eq!(limit.at("maximum").as_u64(), Some(MAX_TIMEOUT_MS));
    assert_eq!(limit.at("default").as_u64(), Some(120_000));
}
