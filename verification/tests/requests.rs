use codex_silent::codec::parse;
use codex_silent::json::Json;
use codex_silent::requests::{answer, answer_read, describe, question_answer, terminal_text};

fn json(text: &str) -> Json {
    parse(text).unwrap()
}

fn make_request(method: &str, params: Json) -> Json {
    json(r#"{"id":42}"#).with("method", Json::text(method)).with("params", params)
}

#[test]
fn approvals_require_explicit_input_and_never_grant_for_session() {
    for method in ["item/commandExecution/requestApproval", "item/fileChange/requestApproval"] {
        let request = make_request(method, json(r#"{"grantRoot":"/work"}"#));
        for input in ["", " ", "acceptForSession", "always", "{}", "yes for session"] {
            assert!(answer(&request, input).is_err(), "{method}: {input}");
        }
        assert_eq!(answer(&request, " YES ").unwrap(), json(r#"{"decision":"accept"}"#));
        assert_eq!(answer(&request, "no").unwrap(), json(r#"{"decision":"decline"}"#));
        assert_eq!(answer(&request, "cancel").unwrap(), json(r#"{"decision":"cancel"}"#));
    }
}

#[test]
fn available_decisions_are_authoritative() {
    for method in ["item/commandExecution/requestApproval", "item/fileChange/requestApproval"] {
        let request = make_request(
            method,
            json(
                r#"{"availableDecisions":["acceptForSession","decline",
                {"acceptWithExecpolicyAmendment":{"execpolicy_amendment":["git"]}},
                {"applyNetworkPolicyAmendment":{"network_policy_amendment":{"host":"example.org","action":"allow"}}}]}"#,
            ),
        );
        assert!(answer(&request, "yes").is_err());
        assert!(answer(&request, "cancel").is_err());
        assert_eq!(answer(&request, "no").unwrap(), json(r#"{"decision":"decline"}"#));
        for available in ["[]", "\"accept\"", r#"[{"accept":true}]"#] {
            let params = json("{}").with("availableDecisions", json(available));
            assert!(answer(&make_request(method, params), "yes").is_err());
        }
        let request = make_request(method, json(r#"{"availableDecisions":["accept","cancel"]}"#));
        assert_eq!(answer(&request, "yes").unwrap(), json(r#"{"decision":"accept"}"#));
        assert_eq!(answer(&request, "cancel").unwrap(), json(r#"{"decision":"cancel"}"#));
        assert!(answer(&request, "no").is_err());
    }
}

#[test]
fn permissions_copy_the_exact_request_for_one_turn() {
    let permissions = json(
        r#"{"network":{"enabled":true},"fileSystem":{
            "entries":[{"access":"write","path":{"type":"path","path":"/work/output"}}],
            "read":["/work/source"],"globScanMaxDepth":3}}"#,
    );
    let request = make_request(
        "item/permissions/requestApproval",
        json(r#"{"scope":"session"}"#).with("permissions", permissions.clone()),
    );
    assert!(answer(&request, "").is_err());
    assert!(answer(&request, "session").is_err());
    assert_eq!(
        answer(&request, "yes").unwrap(),
        json(r#"{"scope":"turn"}"#).with("permissions", permissions)
    );
    assert_eq!(
        answer(&request, "no").unwrap(),
        json(r#"{"permissions":{},"scope":"turn"}"#)
    );
    let malformed = make_request("item/permissions/requestApproval", json("{}"));
    assert!(answer(&malformed, "yes").is_err());
}

const COLOR: &str = r#"{"id":"color","header":"Color","question":"Choose a color","options":[
    {"label":"Red","description":"Warm"},{"label":"Blue","description":"Cool"}]}"#;
const NOTES: &str =
    r#"{"id":"notes","header":"Notes","question":"Any notes?","options":null}"#;

fn ask(questions: Vec<Json>) -> Json {
    make_request(
        "item/tool/requestUserInput",
        json("{}").with("questions", Json::list(questions)),
    )
}

fn questions() -> Json {
    ask(vec![json(COLOR), json(NOTES)])
}

#[test]
fn multiple_questions_keep_their_ids_and_map_each_option() {
    assert_eq!(
        answer(&questions(), r#"{"notes":["first","second"],"color":2}"#).unwrap(),
        json(r#"{"answers":{"color":{"answers":["Blue"]},"notes":{"answers":["first","second"]}}}"#)
    );
    for input in [
        "",
        "yes",
        "{}",
        r#"{"color":1}"#,
        r#"{"color":1,"notes":"ok","extra":"oops"}"#,
        r#"{"color":1,"notes":[]}"#,
        r#"{"color":1,"notes":false}"#,
    ] {
        assert!(answer(&questions(), input).is_err(), "{input}");
    }
}

#[test]
fn single_question_accepts_text_and_one_based_option_numbers() {
    let request = ask(vec![json(COLOR)]);
    assert_eq!(
        answer(&request, "2").unwrap(),
        json(r#"{"answers":{"color":{"answers":["Blue"]}}}"#)
    );
    assert_eq!(
        answer(&request, "custom answer").unwrap(),
        json(r#"{"answers":{"color":{"answers":["custom answer"]}}}"#)
    );
    for input in ["", " ", "0", "3", "999999999999999999999999999999999999"] {
        assert!(answer(&request, input).is_err());
    }
    let request = ask(vec![json(COLOR).with("options", Json::Null)]);
    assert_eq!(
        answer(&request, "123").unwrap(),
        json(r#"{"answers":{"color":{"answers":["123"]}}}"#)
    );
}

#[test]
fn missing_and_duplicate_question_ids_are_rejected() {
    let request = ask(vec![json(COLOR), json(NOTES).with("id", Json::text("color"))]);
    assert!(answer(&request, r#"{"color":"answer"}"#).unwrap_err().contains("Duplicate"));
    let request = ask(vec![json(COLOR), json(NOTES).with("id", Json::Null)]);
    assert!(answer(&request, r#"{"color":"answer"}"#).is_err());
}

#[test]
fn elicitation_requires_actual_form_content_or_explicit_url_confirmation() {
    for mode in ["form", "openai/form", "openaiForm"] {
        let request = make_request(
            "mcpServer/elicitation/request",
            json("{}").with("mode", Json::text(mode)),
        );
        for input in ["", "yes", "null", "[]", "{broken"] {
            assert!(answer(&request, input).is_err());
        }
        assert_eq!(
            answer(&request, r#"{"name":"Ada","count":3}"#).unwrap(),
            json(r#"{"action":"accept","content":{"name":"Ada","count":3}}"#)
        );
        assert_eq!(answer(&request, "no").unwrap(), json(r#"{"action":"decline"}"#));
        assert_eq!(answer(&request, "cancel").unwrap(), json(r#"{"action":"cancel"}"#));
    }
    let request = make_request(
        "mcpServer/elicitation/request",
        json(r#"{"mode":"url","url":"https://example.org/auth"}"#),
    );
    for input in ["", "{}", "done"] {
        assert!(answer(&request, input).is_err());
    }
    assert_eq!(answer(&request, "yes").unwrap(), json(r#"{"action":"accept"}"#));
    assert_eq!(answer(&request, "no").unwrap(), json(r#"{"action":"decline"}"#));
    assert_eq!(answer(&request, "cancel").unwrap(), json(r#"{"action":"cancel"}"#));
}

#[test]
fn unknown_requests_never_fake_success() {
    for method in ["item/tool/call", "future/requestApproval", ""] {
        let request = make_request(method, json("{}"));
        for input in ["", "yes", "no", "cancel", "{}"] {
            let error = answer(&request, input).unwrap_err();
            assert!(error.contains("Unsupported server request"));
            assert!(error.contains("reply_error"));
        }
    }
}

#[test]
fn descriptions_keep_full_context_and_escape_terminal_controls() {
    let change = format!("{}END_OF_DIFF", "line\n".repeat(300));
    let part = json(r#"{"path":"src/main.rs"}"#).with("diff", Json::text(&change));
    let params = json(
        r#"{"cwd":"/work/project","reason":"Fetch dependencies",
        "networkApprovalContext":{"host":"example.org","protocol":"https"},
        "unrecognizedContext":"keep this too"}"#,
    )
    .with("command", Json::text("printf '\u{1b}[2J'\r\u{7}\u{85}\u{202e}"))
    .with("changes", Json::list(vec![part]));
    let text = describe(&make_request("item/commandExecution/requestApproval", params));
    for expected in [
        "Working directory: /work/project",
        "Fetch dependencies",
        "example.org",
        "END_OF_DIFF",
        "keep this too",
        "Full request:",
    ] {
        assert!(text.contains(expected), "{expected}");
    }
    assert!(!text.chars().any(|c| c.is_control() && c != '\n'));
    assert!(!text.contains('\u{202e}'));
    let text = describe(&questions());
    assert!(text.contains("[color] Color: Choose a color"));
    assert!(text.contains("2. Blue — Cool"));
    assert!(text.contains("[notes] Notes: Any notes?"));
}

#[test]
fn control_characters_are_shown_as_escapes() {
    assert_eq!(terminal_text("a\tb\rc\u{1b}d\ne"), "a\\tb\\rc\\u{1b}d\ne");
    assert_eq!(terminal_text("\u{202e}\u{2066}\u{61c}"), "\\u{202e}\\u{2066}\\u{61c}");
    assert_eq!(terminal_text("λ — plain"), "λ — plain");
}

#[test]
fn every_complaint_has_its_words() {
    let approval = |params: &str| make_request("item/fileChange/requestApproval", json(params));
    assert_eq!(
        answer(&approval("{}"), "maybe").unwrap_err(),
        "Enter yes, no, or cancel. Empty input never approves a request."
    );
    assert_eq!(
        answer(&approval(r#"{"availableDecisions":3}"#), "yes").unwrap_err(),
        "Invalid availableDecisions: expected an array; no decision sent."
    );
    assert_eq!(
        answer(&approval(r#"{"availableDecisions":["decline"]}"#), "yes").unwrap_err(),
        "Decision \"accept\" is not available. Choose a supported offered decision: [\n  \"decline\"\n]. Session and policy grants require another client."
    );
    let permissions = make_request("item/permissions/requestApproval", json("{}"));
    assert_eq!(
        answer(&permissions, "yes").unwrap_err(),
        "Missing or invalid requested permissions; no grant sent."
    );
    assert_eq!(
        answer(&permissions, "").unwrap_err(),
        "Enter yes to grant the requested permissions for this turn, or no to grant none."
    );
    assert_eq!(
        answer(&ask(vec![]), "x").unwrap_err(),
        "Request has no questions to answer."
    );
    let one = ask(vec![json(COLOR)]);
    assert_eq!(
        answer(&one, "9").unwrap_err(),
        "Choose an option number from 1 to 2, or enter text."
    );
    assert_eq!(
        answer(&one, " ").unwrap_err(),
        "Enter an answer; empty input does not select an option."
    );
    assert_eq!(
        answer(&questions(), "[]").unwrap_err(),
        "Expected a JSON object keyed by question ID."
    );
    assert_eq!(
        answer(&questions(), "no").unwrap_err(),
        "Enter a JSON object keyed by question ID: expected ident at line 1 column 2"
    );
    assert_eq!(
        answer(&questions(), r#"{"color":1}"#).unwrap_err(),
        "Missing answer for question notes. Include every question ID."
    );
    assert_eq!(
        answer(&questions(), r#"{"color":1,"notes":[]}"#).unwrap_err(),
        "Enter at least one answer for question notes."
    );
    assert_eq!(
        answer(&questions(), r#"{"color":1,"notes":"n","b":1,"a":1}"#).unwrap_err(),
        "Unknown question ID a. Use only the displayed question IDs."
    );
    assert_eq!(
        answer(&ask(vec![json(r#"{"id":""}"#)]), "x").unwrap_err(),
        "Question is missing a nonempty ID; cannot route its answer."
    );
    let elicit = |params: &str| make_request("mcpServer/elicitation/request", json(params));
    assert_eq!(
        answer(&elicit(r#"{"mode":"url"}"#), "yes").unwrap_err(),
        "URL elicitation is missing its URL; cannot confirm it."
    );
    assert_eq!(
        answer(&elicit(r#"{"mode":"url","url":"https://a"}"#), "ok").unwrap_err(),
        "Complete the action at the displayed URL, then enter yes to confirm, no to decline, or cancel."
    );
    assert_eq!(
        answer(&elicit(r#"{"mode":"form"}"#), "[]").unwrap_err(),
        "Form answers must be a JSON object matching requestedSchema."
    );
    assert_eq!(
        answer(&elicit(r#"{"mode":"voice"}"#), "yes").unwrap_err(),
        "Unsupported elicitation mode. Enter no/cancel, or use a client supporting the requested mode."
    );
}

#[test]
fn answers_may_be_option_numbers_as_numbers() {
    let question = json(COLOR);
    assert_eq!(question_answer(&question, &json("1")).unwrap(), "Red");
    assert_eq!(question_answer(&question, &json("\" 2 \"")).unwrap(), "Blue");
    assert_eq!(
        question_answer(&question, &json("-1")).unwrap_err(),
        "Answers must be text, option numbers, or arrays of those values."
    );
    assert_eq!(question_answer(&json(NOTES), &json("7")).unwrap(), "7");
}

#[test]
fn an_answer_rests_on_what_the_input_was_read_as() {
    let read = Ok(json(r#"{"color":"x","notes":"y"}"#));
    assert_eq!(
        answer_read(&questions(), "anything", &read).unwrap(),
        json(r#"{"answers":{"color":{"answers":["x"]},"notes":{"answers":["y"]}}}"#)
    );
    let read = Err("broken".to_string());
    assert_eq!(
        answer_read(&questions(), "anything", &read).unwrap_err(),
        "Enter a JSON object keyed by question ID: broken"
    );
}

#[test]
fn blank_input_answers_no_request() {
    let questions = json(r#"{"questions":[{"id":"a","question":"?"}],"mode":"form","permissions":{}}"#);
    let more = json(r#"{"questions":[{"id":"a"},{"id":"b"}],"mode":"url","url":"https://x"}"#);
    for method in [
        "item/commandExecution/requestApproval",
        "item/fileChange/requestApproval",
        "item/permissions/requestApproval",
        "item/tool/requestUserInput",
        "mcpServer/elicitation/request",
        "other",
    ] {
        for params in [json("{}"), questions.clone(), more.clone()] {
            for input in ["", " ", "\t\r\n", "\u{b}\u{c}", "\u{a0}\u{2003}\u{3000}"] {
                assert!(answer(&make_request(method, params.clone()), input).is_err());
                assert!(parse(input).is_err());
            }
        }
    }
}
