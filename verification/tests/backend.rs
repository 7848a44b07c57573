use codex_silent::backend::{
    launch_arguments, launch_failure, message_of, shutdown_plan, wait_for_exit, Act, Client, Fault,
    Next, Outcome, Poll, Reader, Wait,
};
use codex_silent::codec::{decode, encode, parse};
use codex_silent::json::Json;

fn json(text: &str) -> Json {
    parse(text).unwrap()
}

/// What a reader makes of a line that was written.
fn receive(reader: &mut Reader, frame: Vec<u8>) -> Result<Json, String> {
    let mut delivery = reader.read(frame, Outcome::Line);
    assert_eq!(delivery.next, Next::Read);
    assert_eq!(delivery.messages.len(), 1);
    delivery.messages.remove(0)
}

#[test]
fn handshake_roundtrip_and_server_requests_preserve_content() {
    let config: Vec<String> =
        vec!["model=\"example model\"".to_string(), "features.test=true".to_string()];
    assert_eq!(
        launch_arguments(&config),
        [
            "app-server",
            "--listen",
            "stdio://",
            "-c",
            config[0].as_str(),
            "-c",
            config[1].as_str()
        ]
    );
    let mut client = Client::new();
    let mut server = Reader::new();
    let params = json(r#"{"clientInfo":{"name":"transport-test","version":"1.0"}}"#);
    let (first, frame) = client.request("initialize", params.clone()).unwrap();
    assert_eq!(
        receive(&mut server, frame).unwrap(),
        json(r#"{"method":"initialize"}"#)
            .with("id", Json::from_u64(first))
            .with("params", params)
    );
    let frame = client.notify("initialized", json("{}")).unwrap();
    assert_eq!(
        receive(&mut server, frame).unwrap(),
        json(r#"{"method":"initialized","params":{}}"#)
    );
    let sent = r#"{"id":"approval-λ","method":"item/commandExecution/requestApproval","params":{"command":"printf 'hello\\n'","unknown":{"keep":[null,false,19]}}}"#;
    let mut reader = Reader::new();
    let mut line = sent.as_bytes().to_vec();
    line.push(b'\n');
    let request = receive(&mut reader, line).unwrap();
    assert_eq!(
        request,
        json(r#"{"id":"approval-λ","method":"item/commandExecution/requestApproval"}"#).with(
            "params",
            json(r#"{"unknown":{"keep":[null,false,19]}}"#)
                .with("command", Json::text("printf 'hello\\n'"))
        )
    );
    let result = json(r#"{"decision":"accept"}"#)
        .with("extra", json("{}").with("exact", Json::text("\u{001b}[31m\nλ")));
    let frame = client.reply(request.at("id").clone(), result.clone()).unwrap();
    assert_eq!(
        receive(&mut server, frame).unwrap(),
        json(r#"{"id":"approval-λ"}"#).with("result", result)
    );
    let frame = client
        .reply_error(json("42"), "Unsupported request: λ\nreason")
        .unwrap();
    assert_eq!(
        receive(&mut server, frame).unwrap(),
        json(r#"{"id":42,"error":{"code":-32000,"message":"Unsupported request: λ\nreason"}}"#)
    );
    let (second, frame) = client
        .request("arbitrary/tool", json(r#"{"nested":[null,"\n",true]}"#))
        .unwrap();
    assert_eq!(second, first + 1);
    assert_eq!(frame.iter().filter(|b| **b == b'\n').count(), 1);
    assert_eq!(
        receive(&mut server, frame).unwrap(),
        json(r#"{"method":"arbitrary/tool","params":{"nested":[null,"\n",true]}}"#)
            .with("id", Json::from_u64(second))
    );
    client.shutdown();
}

#[test]
fn malformed_lines_are_reported_and_partial_messages_survive() {
    let mut reader = Reader::new();
    for line in ["not json\n", "{\"half\":\n", "\n"] {
        let error = receive(&mut reader, line.as_bytes().to_vec()).unwrap_err();
        assert!(error.contains("Invalid JSON"));
    }
    let event = json(r#"{"method":"item/commandExecution/outputDelta"}"#)
        .with("params", json("{}").with("delta", Json::text("raw\u{001b}[31m\nλ")));
    let mut line = encode(&event);
    line.push(b'\n');
    assert_eq!(receive(&mut reader, line).unwrap(), event);
    let delivery = reader.read(b"{\"method\":\"partial/ev".to_vec(), Outcome::WouldBlock);
    assert!(delivery.messages.is_empty());
    assert_eq!(delivery.next, Next::Pause);
    let delivery = reader.read(b"ent\",\"params\"".to_vec(), Outcome::Interrupted);
    assert!(delivery.messages.is_empty());
    assert_eq!(delivery.next, Next::Read);
    assert_eq!(
        receive(&mut reader, b":{\"intact\":true}}\n".to_vec()).unwrap(),
        json(r#"{"method":"partial/event","params":{"intact":true}}"#)
    );
    reader.read(b"{\"id\":99,\"result\":\"unterminated\"}".to_vec(), Outcome::WouldBlock);
    let delivery = reader.read(Vec::new(), Outcome::End);
    assert_eq!(delivery.next, Next::Stop);
    assert_eq!(
        delivery.messages,
        [
            Ok(json(r#"{"id":99,"result":"unterminated"}"#)),
            Err("Codex app-server stdout closed (EOF)".to_string())
        ]
    );
}

#[test]
fn exit_signals_eof_and_stopping_says_so() {
    let mut reader = Reader::new();
    let delivery = reader.read(Vec::new(), Outcome::End);
    assert_eq!(
        delivery.messages,
        [Err("Codex app-server stdout closed (EOF)".to_string())]
    );
    let reader = Reader::new();
    let delivery = reader.stop();
    assert_eq!(
        delivery.messages,
        [Err("Codex app-server transport shut down".to_string())]
    );
    assert_eq!(delivery.next, Next::Stop);
    let mut reader = Reader::new();
    let delivery = reader.read(Vec::new(), Outcome::Failed("bad pipe".to_string()));
    assert_eq!(
        delivery.messages,
        [Err("Could not read Codex app-server stdout: bad pipe".to_string())]
    );
}

#[test]
fn shutdown_is_idempotent_and_refuses_later_messages() {
    let mut client = Client::new();
    assert!(client.shutdown());
    assert!(!client.shutdown());
    assert_eq!(client.request("after/shutdown", Json::Null).unwrap_err(), Fault::ShutDown);
    assert_eq!(client.reply(Json::Null, Json::Null).unwrap_err(), Fault::ShutDown);
    assert_eq!(client.notify("m", Json::Null).unwrap_err(), Fault::ShutDown);
    assert_eq!(client.reply_error(Json::Null, "m").unwrap_err(), Fault::ShutDown);
    assert_eq!(Fault::ShutDown.text(), "Codex transport is shut down");
    assert_eq!(Fault::Exhausted.text(), "Codex request IDs exhausted");
}

#[test]
fn missing_codex_has_an_actionable_io_error() {
    let error = launch_failure("/tmp/missing-codex", "No such file or directory (os error 2)", "/w");
    assert!(error.contains("missing-codex"));
    assert!(error.contains("installed"));
    assert_eq!(
        error,
        "Could not start Codex executable '/tmp/missing-codex': No such file or directory (os error 2). Verify Codex is installed, its executable path is correct, and working directory '/w' exists."
    );
}

#[test]
fn invalid_lines_are_quoted() {
    let mut reader = Reader::new();
    assert_eq!(
        receive(&mut reader, b"no\t\"\xff\n".to_vec()).unwrap_err(),
        "Invalid JSON from Codex app-server: expected ident at line 1 column 2; line: \"no\\t\\\"\u{fffd}\\n\""
    );
    assert_eq!(
        message_of(&b"x".to_vec(), Err("why".to_string())).unwrap_err(),
        "Invalid JSON from Codex app-server: why; line: \"x\""
    );
    assert_eq!(message_of(&b"x".to_vec(), Ok(json("3"))).unwrap(), json("3"));
}

#[test]
fn the_whole_group_is_ended() {
    assert_eq!(
        shutdown_plan(Some(4711)),
        [
            Act::CloseInput,
            Act::Sleep(100),
            Act::Terminate(-4711),
            Act::Sleep(250),
            Act::KillGroup(-4711),
            Act::Reap(1000),
            Act::StopReader,
            Act::Join(100)
        ]
    );
    for pid in [0, 1] {
        assert_eq!(
            shutdown_plan(Some(pid)),
            [
                Act::CloseInput,
                Act::Sleep(100),
                Act::KillProcess,
                Act::Reap(1000),
                Act::StopReader,
                Act::Join(100)
            ]
        );
    }
    assert_eq!(
        shutdown_plan(None),
        [
            Act::CloseInput,
            Act::Grace(100),
            Act::Reap(1000),
            Act::StopReader,
            Act::Join(100)
        ]
    );
}

#[test]
fn a_reader_that_stops_says_why_last() {
    for (bytes, outcome) in [
        (b"".to_vec(), Outcome::End),
        (b"{\"id\":1}".to_vec(), Outcome::End),
        (b"{\"id\"".to_vec(), Outcome::Failed("bad pipe".to_string())),
    ] {
        let mut reader = Reader::new();
        let delivery = reader.read(bytes, outcome);
        assert_eq!(delivery.next, Next::Stop);
        assert!(delivery.messages.last().unwrap().is_err());
    }
    let delivery = Reader::new().stop();
    assert_eq!(delivery.next, Next::Stop);
    assert!(delivery.messages.last().unwrap().is_err());
}

#[test]
fn waiting_for_an_exit_is_bounded() {
    assert_eq!(wait_for_exit(Poll::Exited, false), Wait::Exited);
    assert_eq!(wait_for_exit(Poll::Running, true), Wait::Again);
    assert_eq!(wait_for_exit(Poll::Running, false), Wait::GiveUp);
    assert_eq!(wait_for_exit(Poll::Failed, true), Wait::GiveUp);
}

#[test]
fn what_was_written_is_read_back() {
    for text in [
        "null",
        "[]",
        r#"{"a":[1,18446744073709551615,-9223372036854775808,{"b":"\u0000\"\\\n"}]}"#,
        "\"中λ\u{1f600}\"",
    ] {
        let value = json(text);
        let bytes = encode(&value);
        assert!(!bytes.contains(&b'\n'));
        assert_eq!(decode(&bytes).unwrap(), value);
    }
}
