use codex_silent::codec::{compact, parse, pretty};
use codex_silent::conversation::{error_text, string, user_text, Conversation, Kind};
use codex_silent::json::Json;

fn json(text: &str) -> Json {
    parse(text).unwrap()
}

fn send(c: &mut Conversation, item: Json) {
    let params = json("{}").with("turnId", Json::text("t")).with("item", item);
    c.event(&json("{}").with("method", Json::text("item/completed")).with("params", params));
}

#[test]
fn approval_context_preserves_file_changes_without_exposing_tool_results() {
    let mut c = Conversation::default();
    let changes =
        json(r#"[{"path":"src/lib.rs","kind":{"type":"update"},"diff":"-old\n+new\n"}]"#);
    send(
        &mut c,
        json(r#"{"type":"fileChange","id":"patch","output":"PRIVATE_TOOL_OUTPUT"}"#)
            .with("changes", changes.clone()),
    );
    assert_eq!(
        json(c.details("t", "patch").unwrap()),
        json("{}").with("changes", changes)
    );
    send(
        &mut c,
        json(r#"{"type":"mcpToolCall","id":"mcp","result":{"text":"PRIVATE_MCP_RESULT"}}"#),
    );
    assert!(c.details("t", "mcp").is_none());
    assert!(c.visible(false).is_empty());
    assert!(c.visible(true).iter().any(|e| e.text.contains("PRIVATE_MCP_RESULT")));
}

#[test]
fn native_and_mcp_output_hidden_without_changing_source_events() {
    let mut c = Conversation::default();
    send(
        &mut c,
        json(r#"{"type":"userMessage","id":"q","content":[{"type":"text","text":"test my code"}]}"#),
    );
    let tool = json(
        r#"{"type":"commandExecution","id":"cmd","command":"cargo test","aggregatedOutput":"private tool output"}"#,
    );
    send(&mut c, tool.clone());
    send(&mut c, json(r#"{"type":"mcpToolCall","id":"mcp","result":{"text":"mcp noise"}}"#));
    send(
        &mut c,
        json(r#"{"type":"agentMessage","id":"progress","phase":"commentary","text":"Running tests"}"#),
    );
    send(
        &mut c,
        json(r#"{"type":"agentMessage","id":"answer","phase":"final_answer","text":"Tests passed."}"#),
    );
    let shown: Vec<&str> = c.visible(false).iter().map(|e| e.text.as_str()).collect();
    assert_eq!(shown, ["test my code", "Tests passed."]);
    assert!(c.visible(true).iter().any(|e| e.text.contains("private tool output")));
    assert_eq!(c.hidden_count(), 3);
    assert!(tool.at("aggregatedOutput").is_text("private tool output"));
}

#[test]
fn long_tool_run_never_evicts_previous_question_and_answer() {
    let mut c = Conversation::default();
    send(&mut c, json(r#"{"type":"agentMessage","id":"previous","text":"Earlier answer"}"#));
    for n in 0..10_000 {
        send(
            &mut c,
            json(r#"{"type":"commandExecution"}"#)
                .with("id", Json::text(&format!("tool-{n}")))
                .with("aggregatedOutput", Json::text(&"noise\n".repeat(100))),
        );
    }
    assert_eq!(c.visible(false).len(), 1);
    assert_eq!(c.visible(false)[0].text, "Earlier answer");
    assert_eq!(c.hidden_count(), 10_000);
}

#[test]
fn completed_item_replaces_deltas_and_resume_reuses_same_filter() {
    let mut c = Conversation::default();
    send(&mut c, json(r#"{"type":"agentMessage","id":"a","phase":"commentary","text":""}"#));
    c.event(&json(
        r#"{"method":"item/agentMessage/delta","params":{"turnId":"t","itemId":"a","delta":"working"}}"#,
    ));
    assert_eq!(c.visible(false).len(), 0);
    send(&mut c, json(r#"{"type":"agentMessage","id":"a","phase":"final_answer","text":"Done"}"#));
    assert_eq!(c.visible(false)[0].text, "Done");
    assert_eq!(c.entries.len(), 1);
    c.restore(&json(
        r#"{"turns":[{"id":"old","items":[{"type":"commandExecution","id":"c","command":"ls"},{"type":"agentMessage","id":"answer","text":"Old answer"}]}]}"#,
    ));
    assert_eq!(c.visible(false).len(), 2);
    c.event(&json(r#"{"method":"error","params":{"error":{"message":"Connection failed"}}}"#));
    assert!(c.visible(false).iter().any(|e| e.text == "Connection failed"));
}

#[test]
fn entries_have_the_labels_and_texts_of_their_items() {
    let mut c = Conversation::default();
    send(
        &mut c,
        json(r#"{"type":"commandExecution","id":"c","status":"completed","command":"ls","cwd":"/w","aggregatedOutput":"a\nb"}"#),
    );
    send(&mut c, json(r#"{"type":"plan","id":"p","text":"First this"}"#));
    send(&mut c, json(r#"{"type":"exitedReviewMode","id":"r","review":"Looks good"}"#));
    send(&mut c, json(r#"{"type":"webSearch","id":"w","query":"rust"}"#));
    let labels: Vec<&str> = c.entries.iter().map(|e| e.label.as_str()).collect();
    assert_eq!(labels, ["Command · completed", "Plan", "Review", "webSearch"]);
    assert_eq!(c.entries[0].text, "$ ls\n/w\na\nb");
    assert_eq!(c.entries[1].text, "First this");
    assert_eq!(c.entries[2].text, "Looks good");
    assert_eq!(
        c.entries[3].text,
        "{\n  \"id\": \"w\",\n  \"query\": \"rust\",\n  \"type\": \"webSearch\"\n}"
    );
    let kinds: Vec<Kind> = c.entries.iter().map(|e| e.kind).collect();
    assert_eq!(kinds, [Kind::Activity, Kind::Answer, Kind::Answer, Kind::Activity]);
    assert_eq!(
        c.details("t", "c"),
        Some("{\n  \"command\": \"ls\",\n  \"cwd\": \"/w\"\n}")
    );
}

#[test]
fn items_without_an_id_are_left_out() {
    let mut c = Conversation::default();
    send(&mut c, json(r#"{"type":"agentMessage","text":"nobody"}"#));
    assert!(c.entries.is_empty());
    assert_eq!(c.revision, 0);
}

#[test]
fn deltas_before_their_item_make_an_entry_of_their_own() {
    let mut c = Conversation::default();
    c.event(&json(r#"{"method":"item/plan/delta","params":{"turnId":"t","itemId":"p","delta":"one "}}"#));
    c.event(&json(r#"{"method":"item/plan/delta","params":{"turnId":"t","itemId":"p","delta":"two"}}"#));
    c.event(&json(r#"{"method":"item/commandExecution/outputDelta","params":{"turnId":"t","itemId":"c","delta":"x"}}"#));
    c.event(&json(r#"{"method":"item/reasoning/textDelta","params":{"turnId":"t","itemId":"r","delta":"hm"}}"#));
    assert_eq!(c.entries.len(), 3);
    assert_eq!(c.entries[0].text, "one two");
    assert_eq!(c.entries[0].label, "Codex");
    assert_eq!(c.entries[0].kind, Kind::Answer);
    assert_eq!(c.entries[1].label, "Command");
    assert_eq!(c.entries[2].label, "Reasoning");
    assert_eq!(c.entries[2].kind, Kind::Activity);
    assert_eq!(c.hidden_count(), 2);
    assert_eq!(c.revision, 4);
}

#[test]
fn streamed_output_leaves_the_approval_details_alone() {
    let mut c = Conversation::default();
    send(&mut c, json(r#"{"type":"commandExecution","id":"c","command":"ls","cwd":"/w"}"#));
    let before = c.details("t", "c").unwrap().to_owned();
    c.event(&json(r#"{"method":"item/commandExecution/outputDelta","params":{"turnId":"t","itemId":"c","delta":"SECRET"}}"#));
    assert_eq!(c.details("t", "c").unwrap(), before);
    assert!(c.entries[0].text.ends_with("SECRET"));
}

#[test]
fn warnings_are_notices() {
    let mut c = Conversation::default();
    c.event(&json(r#"{"method":"warning","params":{"message":"Careful"}}"#));
    c.event(&json(r#"{"method":"configWarning","params":{"summary":"Bad key","details":"line 3"}}"#));
    c.event(&json(r#"{"method":"something/else","params":{}}"#));
    let texts: Vec<&str> = c.visible(false).iter().map(|e| e.text.as_str()).collect();
    assert_eq!(texts, ["Careful", "Bad key\nline 3"]);
    assert!(c.entries.iter().all(|e| e.kind == Kind::Notice && e.label == "Notice"));
}

#[test]
fn questions_show_images_and_unknown_parts() {
    let content = json(
        r#"[{"type":"text","text":"See"},{"type":"image","url":"x"},{"type":"localImage","path":"/a.png"},{"type":"skill"}]"#,
    );
    assert_eq!(
        user_text(&content),
        "See\n[Image]\n[Image: /a.png]\n{\"type\":\"skill\"}"
    );
    assert_eq!(user_text(&Json::Null), "");
    assert_eq!(user_text(&json("[]")), "");
}

#[test]
fn errors_without_a_message_are_shown_whole() {
    assert_eq!(error_text(&json(r#"{"message":"No"}"#)), "No");
    assert_eq!(error_text(&json(r#"{"code":3}"#)), "{\"code\":3}");
    assert_eq!(string(&json("3")), "");
    assert_eq!(string(&json("\"three\"")), "three");
}

#[test]
fn resuming_gives_the_conversation_of_the_live_messages() {
    let items = [
        json(r#"{"type":"userMessage","id":"q","content":[{"type":"text","text":"Hi"}]}"#),
        json(r#"{"type":"commandExecution","id":"c","command":"ls"}"#),
        json(r#"{"type":"agentMessage","id":"a","text":"Hello"}"#),
    ];
    let mut live = Conversation::default();
    for item in &items {
        send(&mut live, item.clone());
    }
    let turn = json(r#"{"id":"t"}"#).with("items", Json::list(items.to_vec()));
    let thread = json("{}").with("turns", Json::list(vec![turn]));
    let mut resumed = Conversation::default();
    resumed.restore(&thread);
    assert_eq!(live.entries.len(), resumed.entries.len());
    for (a, b) in live.entries.iter().zip(&resumed.entries) {
        assert_eq!(a.kind, b.kind);
        assert_eq!(a.label, b.label);
        assert_eq!(a.text, b.text);
    }
    assert_eq!(live.revision, resumed.revision);
}

#[test]
fn restoring_a_thread_again_changes_no_entry() {
    let thread = json(
        r#"{"turns":[{"items":[{"type":"userMessage","id":"q","content":[{"type":"text","text":"Hi"}]},{"type":"agentMessage","id":"a","text":"draft"}]},{"items":[{"type":"commandExecution","id":"c","command":"ls"},{"type":"agentMessage","id":"a","text":"Hello"},{"type":"agentMessage","text":"no ID"}]}]}"#,
    );
    let mut c = Conversation::default();
    c.notice("before");
    c.restore(&thread);
    let once: Vec<(Kind, String, String)> =
        c.entries.iter().map(|e| (e.kind, e.label.clone(), e.text.clone())).collect();
    assert_eq!(once.len(), 4);
    assert_eq!(once[2].2, "Hello");
    c.restore(&thread);
    let twice: Vec<(Kind, String, String)> =
        c.entries.iter().map(|e| (e.kind, e.label.clone(), e.text.clone())).collect();
    assert_eq!(once, twice);
}

#[test]
fn texts_of_values_are_those_of_the_json_format() {
    let value = json(r#"{"b":[1,-2,1.5],"a":null}"#);
    assert_eq!(compact(&value), "{\"a\":null,\"b\":[1,-2,1.5]}");
    assert_eq!(
        pretty(&value),
        "{\n  \"a\": null,\n  \"b\": [\n    1,\n    -2,\n    1.5\n  ]\n}"
    );
}

#[test]
fn details_rest_on_nothing_but_the_request() {
    let mut first = Conversation::default();
    let mut second = Conversation::default();
    for (c, noise) in [(&mut first, "short"), (&mut second, "another\noutput")] {
        c.event(
            &json(r#"{"method":"item/commandExecution/outputDelta"}"#).with(
                "params",
                json(r#"{"turnId":"t","itemId":"c"}"#).with("delta", Json::text(noise)),
            ),
        );
        let command = json(r#"{"type":"commandExecution","id":"c","command":"ls","cwd":"/"}"#)
            .with("aggregatedOutput", Json::text(noise))
            .with("status", Json::text(noise));
        let change = json(r#"{"type":"fileChange","id":"f","changes":[{"path":"p"}]}"#)
            .with("result", Json::text(noise));
        let turn = json(r#"{"id":"t"}"#).with("items", Json::list(vec![command, change]));
        c.restore(&json("{}").with("turns", Json::list(vec![turn])));
        c.event(
            &json(r#"{"method":"item/commandExecution/outputDelta"}"#).with(
                "params",
                json(r#"{"turnId":"t","itemId":"f"}"#).with("delta", Json::text(noise)),
            ),
        );
    }
    assert_ne!(first.entries[0].text, second.entries[0].text);
    for id in ["c", "f", "x", ""] {
        assert_eq!(first.details("t", id), second.details("t", id));
    }
    assert!(first.details("t", "c").unwrap().contains("ls"));
    assert!(first.details("t", "f").unwrap().contains("path"));
}

#[test]
fn deltas_of_an_item_add_up() {
    let mut c = Conversation::default();
    c.item("t", &json(r#"{"type":"agentMessage","id":"m","phase":"commentary","text":"old "}"#));
    for more in ["a", "", "bλ"] {
        c.delta(
            &json(r#"{"turnId":"t","itemId":"m"}"#).with("delta", Json::text(more)),
            Kind::Answer,
            "Codex",
        );
        c.delta(
            &json(r#"{"turnId":"t","itemId":"n"}"#).with("delta", Json::text(more)),
            Kind::Answer,
            "Plan",
        );
        c.notice(more);
    }
    assert_eq!(c.entries.len(), 5);
    assert_eq!(c.entries[0].kind, Kind::Activity);
    assert_eq!(c.entries[0].label, "Codex");
    assert_eq!(c.entries[0].text, "old abλ");
    assert_eq!(c.entries[1].kind, Kind::Answer);
    assert_eq!(c.entries[1].label, "Plan");
    assert_eq!(c.entries[1].text, "abλ");
}
