//! Pure helpers for requests that must remain visible in the terminal UI.
//!
//! [`answer`] returns the result payload, not the JSON-RPC envelope. The caller
//! submits it only after user input and handles unsupported methods with
//! `reply_error`. Parse errors can be displayed so the user can correct input.
use crate::codec::{parse, parsed, pretty, pretty_text, reading, Reading};
use crate::json::{field, first_missing, first_missing_is_unique, items_of, member, no_members};
use crate::json::{text_of, views, Json, JsonView, NumberView, Object};
use crate::text::{before, before_is_total, before_is_transitive};
use crate::text::{all_digits, bidi, characters, control, decimal, escape, is_bidi, is_control};
use crate::text::{characters_are_of_their_kinds, decimals_are_read_back, is_digit, space};
use crate::text::{escapes_name_their_character, trimming_keeps_the_first_character};
use crate::text::{hex, hex_digit, lower, number, only_digits, parse_digits, same, starts_with, to_decimal};
use crate::text::{nothing_left_is_blank, to_escape, to_lower, trim, trim_front, trim_start, trimmed};
use vstd::prelude::*;
use vstd::string::*;

verus! {

// ---------------------------------------------------------------------------
// Text for the terminal
// ---------------------------------------------------------------------------

/// Whether a character is escaped before it is displayed.
pub open spec fn dangerous(c: char) -> bool {
    (control(c) && c != '\n') || bidi(c)
}

/// A text with its dangerous characters escaped.
pub open spec fn escaped(s: Seq<char>) -> Seq<char>
    decreases s.len(),
{
    if s.len() == 0 {
        s
    } else if dangerous(s.last()) {
        escaped(s.drop_last()) + escape(s.last())
    } else {
        escaped(s.drop_last()).push(s.last())
    }
}

/// A text with control characters (except line feeds) and bidi controls escaped.
pub fn terminal_text(text: &str) -> (r: String)
    ensures
        r@ == escaped(text@),
{
    let chars = characters(text);
    let mut safe = String::new();
    assert(chars@.take(0) =~= Seq::empty());
    for i in 0..chars.len()
        invariant
            safe@ == escaped(chars@.take(i as int)),
    {
        let c = chars[i];
        assert(chars@.take(i + 1).drop_last() =~= chars@.take(i as int));
        if (is_control(c) && c != '\n') || is_bidi(c) {
            safe.append(to_escape(c).as_str());
        } else {
            safe.push(c);
        }
    }
    assert(chars@.take(chars@.len() as int) =~= chars@);
    safe
}

// ---------------------------------------------------------------------------
// Descriptions
// ---------------------------------------------------------------------------

/// The method of a request.
pub open spec fn method_of(request: JsonView) -> Seq<char> {
    match text_of(field(request, "method"@)) {
        Some(method) => method,
        None => "<missing method>"@,
    }
}

/// The text of a value, or another one where it is no text.
pub open spec fn text_or(v: JsonView, other: Seq<char>) -> Seq<char> {
    match text_of(v) {
        Some(text) => text,
        None => other,
    }
}

/// Whether a method asks for the approval of a command or of file changes.
pub open spec fn asks_approval(method: Seq<char>) -> bool {
    method == "item/commandExecution/requestApproval"@ || method
        == "item/fileChange/requestApproval"@
}

/// What the user is told to enter.
pub open spec fn instructions(method: Seq<char>) -> Seq<char> {
    if asks_approval(method) {
        "Enter yes to approve once, no to decline, or cancel to interrupt the turn.\nOnly available decisions are accepted; session and policy grants are unsupported."@
    } else if method == "item/permissions/requestApproval"@ {
        "Enter yes to grant exactly the requested permissions for this turn, or no to grant none."@
    } else if method == "item/tool/requestUserInput"@ {
        "For one question, enter text or an option number (starting at 1).\nFor multiple questions, enter JSON keyed by every question ID, for example:\n{\"question_id\": \"answer\", \"another_id\": [1, \"other answer\"]}"@
    } else if method == "mcpServer/elicitation/request"@ {
        "Enter no to decline or cancel to cancel.\nFor a form, submit a JSON object containing your answers.\nFor a URL, visit it and complete the requested action, then enter yes to confirm.\nThis client does not open URLs or verify completion."@
    } else {
        "Unsupported request. Submit input to report an error to the server; use a client that supports this method."@
    }
}

/// A member of a request with its label, if it has one that is not null.
pub open spec fn labelled(params: JsonView, key: Seq<char>, label: Seq<char>) -> Seq<char> {
    match member(params, key) {
        Some(value) => if value is Null {
            Seq::empty()
        } else {
            "\n"@ + label + ": "@ + text_or(value, pretty_text(value)) + "\n"@
        },
        None => Seq::empty(),
    }
}

/// An option of a question, with its number.
pub open spec fn option_line(option: JsonView, number: nat) -> Seq<char> {
    "  "@ + decimal(number) + ". "@ + text_or(field(option, "label"@), "<missing label>"@) + " — "@
        + text_or(field(option, "description"@), Seq::empty()) + "\n"@
}

/// The options of a question, one per line.
pub open spec fn option_lines(options: Seq<JsonView>) -> Seq<char>
    decreases options.len(),
{
    if options.len() == 0 {
        Seq::empty()
    } else {
        option_lines(options.drop_last()) + option_line(options.last(), options.len())
    }
}

/// A question with its options.
pub open spec fn question_lines(question: JsonView) -> Seq<char> {
    let head = "\n["@ + text_or(field(question, "id"@), "<missing id>"@) + "] "@ + text_or(
        field(question, "header"@),
        "Question"@,
    ) + ": "@ + text_or(field(question, "question"@), Seq::empty()) + "\n"@;
    match items_of(field(question, "options"@)) {
        Some(options) => head + option_lines(options),
        None => head,
    }
}

/// Questions one after the other.
pub open spec fn questions_lines(questions: Seq<JsonView>) -> Seq<char>
    decreases questions.len(),
{
    if questions.len() == 0 {
        Seq::empty()
    } else {
        questions_lines(questions.drop_last()) + question_lines(questions.last())
    }
}

/// The members of a request that are of interest, each with its label.
pub open spec fn context(params: JsonView) -> Seq<char> {
    labelled(params, "command"@, "Command"@) + labelled(params, "cwd"@, "Working directory"@)
        + labelled(params, "reason"@, "Reason"@) + labelled(
        params,
        "networkApprovalContext"@,
        "Network context"@,
    ) + labelled(params, "changes"@, "File changes"@) + labelled(
        params,
        "grantRoot"@,
        "Requested write root"@,
    ) + labelled(params, "permissions"@, "Requested permissions"@) + labelled(
        params,
        "availableDecisions"@,
        "Available decisions"@,
    ) + labelled(params, "serverName"@, "MCP server"@) + labelled(params, "message"@, "Message"@)
        + labelled(params, "url"@, "URL"@)
}

/// The description of a request, before anything in it is escaped.
pub open spec fn description(request: JsonView) -> Seq<char> {
    let method = method_of(request);
    let params = field(request, "params"@);
    method + "\n"@ + instructions(method) + "\n"@ + context(params) + (match items_of(
        field(params, "questions"@),
    ) {
        Some(questions) => questions_lines(questions),
        None => Seq::empty(),
    }) + "\nFull request:\n"@ + pretty_text(request)
}

/// The text of a value, or another one where it is no text.
fn string_or<'a>(value: &'a Json, other: &'a str) -> (r: &'a str)
    ensures
        r@ == text_or(value@, other@),
{
    match value.as_str() {
        Some(text) => text,
        None => other,
    }
}

/// Whether a method asks for the approval of a command or of file changes.
fn is_approval(method: &str) -> (r: bool)
    ensures
        r == asks_approval(method@),
{
    same(method, "item/commandExecution/requestApproval") || same(
        method,
        "item/fileChange/requestApproval",
    )
}

/// What the user is told to enter.
fn instruct(method: &str) -> (r: &'static str)
    ensures
        r@ == instructions(method@),
{
    if is_approval(method) {
        "Enter yes to approve once, no to decline, or cancel to interrupt the turn.\nOnly available decisions are accepted; session and policy grants are unsupported."
    } else if same(method, "item/permissions/requestApproval") {
        "Enter yes to grant exactly the requested permissions for this turn, or no to grant none."
    } else if same(method, "item/tool/requestUserInput") {
        "For one question, enter text or an option number (starting at 1).\nFor multiple questions, enter JSON keyed by every question ID, for example:\n{\"question_id\": \"answer\", \"another_id\": [1, \"other answer\"]}"
    } else if same(method, "mcpServer/elicitation/request") {
        "Enter no to decline or cancel to cancel.\nFor a form, submit a JSON object containing your answers.\nFor a URL, visit it and complete the requested action, then enter yes to confirm.\nThis client does not open URLs or verify completion."
    } else {
        "Unsupported request. Submit input to report an error to the server; use a client that supports this method."
    }
}

/// Adds a member of a request with its label, if it has one that is not null.
fn push_labelled(text: &mut String, params: &Json, key: &str, label: &str)
    ensures
        final(text)@ == old(text)@ + labelled(params@, key@, label@),
{
    let ghost start = text@;
    if let Some(value) = params.get(key) {
        if !value.is_null() {
            text.append("\n");
            text.append(label);
            text.append(": ");
            match value.as_str() {
                Some(shown) => text.append(shown),
                None => text.append(pretty(value).as_str()),
            }
            text.append("\n");
        }
    }
    assert(text@ =~= start + labelled(params@, key@, label@));
}

/// Adds the options of a question, one per line.
fn push_options(text: &mut String, options: &Vec<Json>)
    ensures
        final(text)@ == old(text)@ + option_lines(views(options@)),
{
    let ghost start = text@;
    let ghost all = views(options@);
    assert(all.take(0) =~= Seq::empty());
    assert(start + Seq::<char>::empty() =~= start);
    for index in 0..options.len()
        invariant
            all == views(options@),
            text@ == start + option_lines(all.take(index as int)),
    {
        let option = &options[index];
        let ghost before = text@;
        assert(all.take(index + 1).drop_last() =~= all.take(index as int));
        assert(all.take(index + 1).last() == option@);
        text.append("  ");
        text.append(to_decimal(index as u128 + 1).as_str());
        text.append(". ");
        text.append(string_or(option.at("label"), "<missing label>"));
        text.append(" — ");
        match option.at("description").as_str() {
            Some(shown) => text.append(shown),
            None => {},
        }
        text.append("\n");
        assert(text@ =~= before + option_line(option@, (index + 1) as nat));
        assert(text@ =~= start + option_lines(all.take(index + 1)));
    }
    assert(all.take(all.len() as int) =~= all);
}

/// Adds a question with its options.
fn push_question(text: &mut String, question: &Json)
    ensures
        final(text)@ == old(text)@ + question_lines(question@),
{
    let ghost start = text@;
    text.append("\n[");
    text.append(string_or(question.at("id"), "<missing id>"));
    text.append("] ");
    text.append(string_or(question.at("header"), "Question"));
    text.append(": ");
    match question.at("question").as_str() {
        Some(shown) => text.append(shown),
        None => {},
    }
    text.append("\n");
    if let Some(options) = question.at("options").as_array() {
        push_options(text, options);
    }
    assert(text@ =~= start + question_lines(question@));
}

/// The members of a request that are of interest, each with its label.
fn context_text(params: &Json) -> (r: String)
    ensures
        r@ == context(params@),
{
    let mut text = String::new();
    push_labelled(&mut text, params, "command", "Command");
    assert(text@ =~= labelled(params@, "command"@, "Command"@));
    push_labelled(&mut text, params, "cwd", "Working directory");
    push_labelled(&mut text, params, "reason", "Reason");
    push_labelled(&mut text, params, "networkApprovalContext", "Network context");
    push_labelled(&mut text, params, "changes", "File changes");
    push_labelled(&mut text, params, "grantRoot", "Requested write root");
    push_labelled(&mut text, params, "permissions", "Requested permissions");
    push_labelled(&mut text, params, "availableDecisions", "Available decisions");
    push_labelled(&mut text, params, "serverName", "MCP server");
    push_labelled(&mut text, params, "message", "Message");
    push_labelled(&mut text, params, "url", "URL");
    text
}

/// Describe a request without truncation. The UI owns wrapping and scrolling.
/// Control characters (except line feeds) and bidi controls are escaped here.
pub fn describe(request: &Json) -> (r: String)
    ensures
        r@ == escaped(description(request@)),
{
    let method = string_or(request.at("method"), "<missing method>");
    let params = request.at("params");
    let mut text = method.to_owned();
    text.append("\n");
    text.append(instruct(method));
    text.append("\n");
    text.append(context_text(params).as_str());
    let ghost head = text@;
    if let Some(questions) = params.at("questions").as_array() {
        let ghost all = views(questions@);
        assert(all.take(0) =~= Seq::empty());
        assert(head + Seq::<char>::empty() =~= head);
        for i in 0..questions.len()
            invariant
                all == views(questions@),
                text@ == head + questions_lines(all.take(i as int)),
        {
            assert(all.take(i + 1).drop_last() =~= all.take(i as int));
            assert(all.take(i + 1).last() == questions@[i as int]@);
            push_question(&mut text, &questions[i]);
            assert(text@ =~= head + questions_lines(all.take(i + 1)));
        }
        assert(all.take(all.len() as int) =~= all);
    } else {
        assert(head + Seq::<char>::empty() =~= head);
    }
    text.append("\nFull request:\n");
    text.append(pretty(request).as_str());
    assert(text@ =~= description(request@));
    terminal_text(text.as_str())
}

// ---------------------------------------------------------------------------
// Answers
// ---------------------------------------------------------------------------

/// The word that the user has entered, whatever its case.
pub open spec fn word(input: Seq<char>) -> Seq<char> {
    lower(trimmed(input))
}

/// Whether the user has entered yes.
pub open spec fn says_yes(input: Seq<char>) -> bool {
    word(input) == "yes"@ || word(input) == "y"@
}

/// Whether the user has entered no.
pub open spec fn says_no(input: Seq<char>) -> bool {
    word(input) == "no"@ || word(input) == "n"@
}

/// The object with a single member.
pub open spec fn single(key: Seq<char>, value: JsonView) -> JsonView {
    JsonView::Object(no_members().insert(key, value))
}

/// The decision that the user has entered.
pub open spec fn decision_of(input: Seq<char>) -> Option<Seq<char>> {
    if says_yes(input) {
        Some("accept"@)
    } else if says_no(input) {
        Some("decline"@)
    } else if word(input) == "cancel"@ {
        Some("cancel"@)
    } else {
        None
    }
}

/// What is said of a decision that the server has not offered.
pub open spec fn not_offered(decision: Seq<char>, available: JsonView) -> Seq<char> {
    "Decision \""@ + decision
        + "\" is not available. Choose a supported offered decision: "@ + escaped(
        pretty_text(available),
    ) + ". Session and policy grants require another client."@
}

/// The answer to a request for approval. Where the server lists the decisions that it offers, no
/// other one is sent.
pub open spec fn approval_answer(params: JsonView, input: Seq<char>) -> Reading {
    match decision_of(input) {
        None => Err("Enter yes, no, or cancel. Empty input never approves a request."@),
        Some(decision) => {
            let sent = single("decision"@, JsonView::Text(decision));
            match field(params, "availableDecisions"@) {
                JsonView::Null => Ok(sent),
                JsonView::Array(offered) => if offered.contains(JsonView::Text(decision)) {
                    Ok(sent)
                } else {
                    Err(not_offered(decision, field(params, "availableDecisions"@)))
                },
                _ => Err("Invalid availableDecisions: expected an array; no decision sent."@),
            }
        },
    }
}

/// The permissions that are granted, for one turn.
pub open spec fn grant(permissions: JsonView) -> JsonView {
    JsonView::Object(
        no_members().insert("permissions"@, permissions).insert("scope"@, JsonView::Text("turn"@)),
    )
}

/// The answer to a request for permissions: all that are requested, or none.
pub open spec fn permission_answer(params: JsonView, input: Seq<char>) -> Reading {
    if says_yes(input) {
        if field(params, "permissions"@) is Object {
            Ok(grant(field(params, "permissions"@)))
        } else {
            Err("Missing or invalid requested permissions; no grant sent."@)
        }
    } else if says_no(input) {
        Ok(grant(JsonView::Object(no_members())))
    } else {
        Err(
            "Enter yes to grant the requested permissions for this turn, or no to grant none."@,
        )
    }
}

/// The text of one answer to a question: an option by its number, or the text itself.
pub open spec fn chosen(question: JsonView, value: JsonView) -> Result<Seq<char>, Seq<char>> {
    let text = match value {
        JsonView::Text(text) => Some(text),
        JsonView::Num(NumberView::Pos(u)) => Some(decimal(u as nat)),
        _ => None,
    };
    match text {
        None => Err("Answers must be text, option numbers, or arrays of those values."@),
        Some(text) => if trimmed(text).len() == 0 {
            Err("Enter an answer; empty input does not select an option."@)
        } else {
            match items_of(field(question, "options"@)) {
                Some(options) => if options.len() > 0 && all_digits(trimmed(text)) {
                    let n = number(trimmed(text));
                    let complaint = "Choose an option number from 1 to "@ + decimal(options.len())
                        + ", or enter text."@;
                    if 1 <= n <= options.len() {
                        match text_of(field(options[n - 1], "label"@)) {
                            Some(label) => Ok(label),
                            None => Err(complaint),
                        }
                    } else {
                        Err(complaint)
                    }
                } else {
                    Ok(text)
                },
                None => Ok(text),
            }
        },
    }
}

/// The texts of several answers to a question, or the first reason against one.
pub open spec fn chosen_all(question: JsonView, values: Seq<JsonView>) -> Result<
    Seq<JsonView>,
    Seq<char>,
>
    decreases values.len(),
{
    if values.len() == 0 {
        Ok(Seq::empty())
    } else {
        match chosen_all(question, values.drop_last()) {
            Err(reason) => Err(reason),
            Ok(texts) => match chosen(question, values.last()) {
                Err(reason) => Err(reason),
                Ok(text) => Ok(texts.push(JsonView::Text(text))),
            },
        }
    }
}

/// The answers so far, with those to one more question.
pub open spec fn with_question(
    answers: Map<Seq<char>, JsonView>,
    question: JsonView,
    keyed: Option<Map<Seq<char>, JsonView>>,
    input: Seq<char>,
) -> Result<Map<Seq<char>, JsonView>, Seq<char>> {
    let id = text_or(field(question, "id"@), Seq::empty());
    if id.len() == 0 {
        Err("Question is missing a nonempty ID; cannot route its answer."@)
    } else if answers.dom().contains(id) {
        Err("Duplicate question ID "@ + escaped(id) + "; cannot route answers safely."@)
    } else if keyed is Some && !keyed->Some_0.dom().contains(id) {
        Err("Missing answer for question "@ + escaped(id) + ". Include every question ID."@)
    } else {
        let value = match keyed {
            Some(values) => values[id],
            None => JsonView::Text(input),
        };
        let values = match value {
            JsonView::Array(values) => values,
            _ => seq![value],
        };
        if values.len() == 0 {
            Err("Enter at least one answer for question "@ + escaped(id) + "."@)
        } else {
            match chosen_all(question, values) {
                Err(reason) => Err(reason),
                Ok(texts) => Ok(
                    answers.insert(id, single("answers"@, JsonView::Array(texts))),
                ),
            }
        }
    }
}

/// The answers to a sequence of questions, or the first reason against one.
pub open spec fn with_questions(
    questions: Seq<JsonView>,
    keyed: Option<Map<Seq<char>, JsonView>>,
    input: Seq<char>,
) -> Result<Map<Seq<char>, JsonView>, Seq<char>>
    decreases questions.len(),
{
    if questions.len() == 0 {
        Ok(no_members())
    } else {
        match with_questions(questions.drop_last(), keyed, input) {
            Err(reason) => Err(reason),
            Ok(answers) => with_question(answers, questions.last(), keyed, input),
        }
    }
}

/// Whether the answers to questions are entered as JSON.
pub open spec fn enters_json(questions: Seq<JsonView>, input: Seq<char>) -> bool {
    questions.len() > 1 || seq!['{'].is_prefix_of(trim_front(input))
}

/// The first of the entered question IDs that no question has.
pub open spec fn unknown_id(
    values: Map<Seq<char>, JsonView>,
    answers: Map<Seq<char>, JsonView>,
) -> Seq<char> {
    choose|id: Seq<char>| first_missing(values, answers, id)
}

/// The answers to all questions, once it is known whether they are keyed by question ID.
pub open spec fn route(
    questions: Seq<JsonView>,
    keyed: Option<Map<Seq<char>, JsonView>>,
    input: Seq<char>,
) -> Reading {
    match with_questions(questions, keyed, input) {
        Err(reason) => Err(reason),
        Ok(answers) => if keyed is Some && !keyed->Some_0.dom().subset_of(answers.dom()) {
            Err(
                "Unknown question ID "@ + escaped(unknown_id(keyed->Some_0, answers))
                    + ". Use only the displayed question IDs."@,
            )
        } else {
            Ok(single("answers"@, JsonView::Object(answers)))
        },
    }
}

/// The answer to a request for user input, of which `read` is what the input denotes as JSON.
pub open spec fn questions_answer(params: JsonView, input: Seq<char>, read: Reading) -> Reading {
    match items_of(field(params, "questions"@)) {
        None => Err("Request has no questions to answer."@),
        Some(questions) => if questions.len() == 0 {
            Err("Request has no questions to answer."@)
        } else if enters_json(questions, input) {
            match read {
                Err(error) => Err("Enter a JSON object keyed by question ID: "@ + error),
                Ok(JsonView::Object(values)) => route(questions, Some(values), input),
                Ok(_) => Err("Expected a JSON object keyed by question ID."@),
            }
        } else {
            route(questions, None, input)
        },
    }
}

/// The answer to an elicitation, of which `read` is what the input denotes as JSON.
pub open spec fn elicitation_answer(params: JsonView, input: Seq<char>, read: Reading) -> Reading {
    let mode = field(params, "mode"@);
    if says_no(input) {
        Ok(single("action"@, JsonView::Text("decline"@)))
    } else if word(input) == "cancel"@ {
        Ok(single("action"@, JsonView::Text("cancel"@)))
    } else if mode == JsonView::Text("url"@) {
        if !says_yes(input) {
            Err(
                "Complete the action at the displayed URL, then enter yes to confirm, no to decline, or cancel."@,
            )
        } else if trimmed(text_or(field(params, "url"@), Seq::empty())).len() == 0 {
            Err("URL elicitation is missing its URL; cannot confirm it."@)
        } else {
            Ok(single("action"@, JsonView::Text("accept"@)))
        }
    } else if mode == JsonView::Text("form"@) || mode == JsonView::Text("openai/form"@) || mode
        == JsonView::Text("openaiForm"@) {
        match read {
            Err(error) => Err(
                "Submit form answers as a JSON object, or enter no/cancel: "@ + error,
            ),
            Ok(content) => if content is Object {
                Ok(
                    JsonView::Object(
                        no_members().insert("action"@, JsonView::Text("accept"@)).insert(
                            "content"@,
                            content,
                        ),
                    ),
                )
            } else {
                Err("Form answers must be a JSON object matching requestedSchema."@)
            },
        }
    } else {
        Err(
            "Unsupported elicitation mode. Enter no/cancel, or use a client supporting the requested mode."@,
        )
    }
}

/// The answer to a request, of which `read` is what the input denotes as JSON.
pub open spec fn answered(request: JsonView, input: Seq<char>, read: Reading) -> Reading {
    let method = method_of(request);
    let params = field(request, "params"@);
    if asks_approval(method) {
        approval_answer(params, input)
    } else if method == "item/permissions/requestApproval"@ {
        permission_answer(params, input)
    } else if method == "item/tool/requestUserInput"@ {
        questions_answer(params, input, read)
    } else if method == "mcpServer/elicitation/request"@ {
        elicitation_answer(params, input, read)
    } else {
        Err(
            "Unsupported server request "@ + escaped(method)
                + ". Send a JSON-RPC method-not-found error with reply_error; use a client that supports this method."@,
        )
    }
}

/// A complaint about an ID.
fn complain(start: &str, id: &str, end: &str) -> (r: String)
    ensures
        r@ == start@ + escaped(id@) + end@,
{
    let mut text = start.to_owned();
    text.append(terminal_text(id).as_str());
    text.append(end);
    text
}

/// The object with a single member.
fn object(key: &str, value: Json) -> (r: Json)
    ensures
        r@ == single(key@, value@),
{
    Json::Object(Object::new().with(key, value))
}

/// Whether a list holds a text.
fn offers(list: &Vec<Json>, text: &str) -> (r: bool)
    ensures
        r == views(list@).contains(JsonView::Text(text@)),
{
    for i in 0..list.len()
        invariant
            forall|k: int| 0 <= k < i ==> (#[trigger] list@[k])@ != JsonView::Text(text@),
    {
        if list[i].is_text(text) {
            assert(views(list@)[i as int] == JsonView::Text(text@));
            return true;
        }
    }
    assert forall|k: int| 0 <= k < views(list@).len() implies views(list@)[k] != JsonView::Text(
        text@,
    ) by {
        assert(list@[k]@ != JsonView::Text(text@));
    }
    false
}

/// The answer to a request for approval.
pub fn answer_approval(params: &Json, input: &str) -> (r: Result<Json, String>)
    ensures
        reading(r) == approval_answer(params@, input@),
{
    let entered = to_lower(trim(input).as_str());
    let entered = entered.as_str();
    let decision = if same(entered, "yes") || same(entered, "y") {
        "accept"
    } else if same(entered, "no") || same(entered, "n") {
        "decline"
    } else if same(entered, "cancel") {
        "cancel"
    } else {
        return Err(
            "Enter yes, no, or cancel. Empty input never approves a request.".to_owned(),
        );
    };
    // Older schemas omit this field. A supplied list is authoritative:
    // never substitute acceptForSession or an amendment for accept.
    let available = params.at("availableDecisions");
    if !available.is_null() {
        match available.as_array() {
            None => {
                return Err(
                    "Invalid availableDecisions: expected an array; no decision sent.".to_owned(),
                );
            },
            Some(list) => {
                if !offers(list, decision) {
                    let mut text = "Decision \"".to_owned();
                    text.append(decision);
                    text.append(
                        "\" is not available. Choose a supported offered decision: ",
                    );
                    text.append(terminal_text(pretty(available).as_str()).as_str());
                    text.append(". Session and policy grants require another client.");
                    return Err(text);
                }
            },
        }
    }
    Ok(object("decision", Json::text(decision)))
}

/// The answer to a request for permissions.
pub fn answer_permissions(params: &Json, input: &str) -> (r: Result<Json, String>)
    ensures
        reading(r) == permission_answer(params@, input@),
{
    let entered = to_lower(trim(input).as_str());
    let entered = entered.as_str();
    let permissions = if same(entered, "yes") || same(entered, "y") {
        match params.at("permissions").as_object() {
            Some(permissions) => Json::Object(permissions.clone()),
            None => {
                return Err(
                    "Missing or invalid requested permissions; no grant sent.".to_owned(),
                );
            },
        }
    } else if same(entered, "no") || same(entered, "n") {
        Json::Object(Object::new())
    } else {
        return Err(
            "Enter yes to grant the requested permissions for this turn, or no to grant none.".to_owned(),
        );
    };
    Ok(
        Json::Object(
            Object::new().with("permissions", permissions).with("scope", Json::text("turn")),
        ),
    )
}

/// The text of one answer to a question.
pub fn question_answer(question: &Json, value: &Json) -> (r: Result<String, String>)
    ensures
        match r {
            Ok(text) => chosen(question@, value@) == Ok::<Seq<char>, Seq<char>>(text@),
            Err(reason) => chosen(question@, value@) == Err::<Seq<char>, Seq<char>>(reason@),
        },
{
    let text = match value {
        Json::Text(text) => text.clone(),
        _ => match value.as_u64() {
            Some(u) => to_decimal(u as u128),
            None => {
                return Err(
                    "Answers must be text, option numbers, or arrays of those values.".to_owned(),
                );
            },
        },
    };
    let entered = trim(text.as_str());
    if entered.as_str().is_empty() {
        return Err("Enter an answer; empty input does not select an option.".to_owned());
    }
    if let Some(options) = question.at("options").as_array() {
        // Digits denote a one-based option index, including out-of-range input.
        if options.len() > 0 && only_digits(entered.as_str()) {
            if let Some(n) = parse_digits(entered.as_str()) {
                if 1 <= n && n <= options.len() {
                    let option = &options[n - 1];
                    assert(views(options@)[n - 1] == option@);
                    if let Some(label) = option.at("label").as_str() {
                        return Ok(label.to_owned());
                    }
                }
            }
            let mut reason = "Choose an option number from 1 to ".to_owned();
            reason.append(to_decimal(options.len() as u128).as_str());
            reason.append(", or enter text.");
            return Err(reason);
        }
    }
    Ok(text)
}

/// The texts of several answers to a question.
fn question_answers(question: &Json, values: &Vec<Json>) -> (r: Result<Vec<Json>, String>)
    ensures
        match r {
            Ok(texts) => chosen_all(question@, views(values@)) == Ok::<Seq<JsonView>, Seq<char>>(
                views(texts@),
            ),
            Err(reason) => chosen_all(question@, views(values@)) == Err::<
                Seq<JsonView>,
                Seq<char>,
            >(reason@),
        },
{
    let mut texts: Vec<Json> = Vec::new();
    let ghost all = views(values@);
    assert(all.take(0) =~= Seq::empty());
    assert(views(texts@) =~= Seq::empty());
    for i in 0..values.len()
        invariant
            all == views(values@),
            chosen_all(question@, all.take(i as int)) == Ok::<Seq<JsonView>, Seq<char>>(
                views(texts@),
            ),
    {
        assert(all.take(i + 1).drop_last() =~= all.take(i as int));
        assert(all.take(i + 1).last() == values@[i as int]@);
        match question_answer(question, &values[i]) {
            Ok(text) => {
                let ghost before = views(texts@);
                texts.push(Json::Text(text));
                assert(views(texts@) =~= before.push(JsonView::Text(text@)));
            },
            Err(reason) => {
                proof {
                    lemma_chosen_stops(question@, all, i + 1);
                }
                return Err(reason);
            },
        }
    }
    assert(all.take(all.len() as int) =~= all);
    Ok(texts)
}

/// A reason against one of the first answers is the reason against all of them.
proof fn lemma_chosen_stops(question: JsonView, values: Seq<JsonView>, k: int)
    requires
        0 <= k <= values.len(),
        chosen_all(question, values.take(k)) is Err,
    ensures
        chosen_all(question, values) == chosen_all(question, values.take(k)),
    decreases values.len(),
{
    if k == values.len() {
        assert(values.take(k) =~= values);
    } else {
        assert(values.drop_last().take(k) =~= values.take(k));
        lemma_chosen_stops(question, values.drop_last(), k);
    }
}

/// Adds the answers to one more question.
fn add_question(
    answers: &mut Object,
    question: &Json,
    keyed: Option<&Object>,
    input: &str,
) -> (r: Result<(), String>)
    ensures
        ({
            let wanted = with_question(
                old(answers)@,
                question@,
                (match keyed {
                    Some(values) => Some(values@),
                    None => None,
                }),
                input@,
            );
            match r {
                Ok(_) => wanted == Ok::<Map<Seq<char>, JsonView>, Seq<char>>(final(answers)@),
                Err(reason) => wanted == Err::<Map<Seq<char>, JsonView>, Seq<char>>(reason@),
            }
        }),
{
    let id = match question.at("id").as_str() {
        Some(id) => id,
        None => {
            return Err("Question is missing a nonempty ID; cannot route its answer.".to_owned());
        },
    };
    if id.is_empty() {
        return Err("Question is missing a nonempty ID; cannot route its answer.".to_owned());
    }
    if answers.contains_key(id) {
        return Err(complain("Duplicate question ID ", id, "; cannot route answers safely."));
    }
    let value = match keyed {
        Some(values) => match values.get(id) {
            Some(value) => value.clone(),
            None => {
                return Err(
                    complain("Missing answer for question ", id, ". Include every question ID."),
                );
            },
        },
        None => Json::text(input),
    };
    let values = match value {
        Json::Array(values) => {
            assert(value@->Array_0 =~= views(values@));
            values
        },
        value => {
            let ghost one = value@;
            let values = vec![value];
            assert(views(values@) =~= seq![one]);
            values
        },
    };
    if values.len() == 0 {
        return Err(complain("Enter at least one answer for question ", id, "."));
    }
    match question_answers(question, &values) {
        Ok(texts) => {
            answers.insert(id.to_owned(), object("answers", Json::list(texts)));
            Ok(())
        },
        Err(reason) => Err(reason),
    }
}

/// The answers to all questions, once it is known whether they are keyed by question ID.
fn route_answers(questions: &Vec<Json>, keyed: Option<&Object>, input: &str) -> (r: Result<
    Json,
    String,
>)
    ensures
        reading(r) == route(
            views(questions@),
            (match keyed {
                Some(values) => Some(values@),
                None => None,
            }),
            input@,
        ),
{
    let ghost all = views(questions@);
    let ghost key = match keyed {
        Some(values) => Some(values@),
        None => None,
    };
    let mut answers = Object::new();
    assert(all.take(0) =~= Seq::empty());
    for i in 0..questions.len()
        invariant
            all == views(questions@),
            key == (match keyed {
                Some(values) => Some(values@),
                None => None,
            }),
            with_questions(all.take(i as int), key, input@) == Ok::<
                Map<Seq<char>, JsonView>,
                Seq<char>,
            >(answers@),
    {
        assert(all.take(i + 1).drop_last() =~= all.take(i as int));
        assert(all.take(i + 1).last() == questions@[i as int]@);
        match add_question(&mut answers, &questions[i], keyed, input) {
            Ok(_) => {},
            Err(reason) => {
                proof {
                    lemma_questions_stop(all, key, input@, i + 1);
                }
                return Err(reason);
            },
        }
    }
    assert(all.take(all.len() as int) =~= all);
    if let Some(values) = keyed {
        if let Some(id) = values.first_missing_in(&answers) {
            proof {
                first_missing_is_unique(values@, answers@, id@, unknown_id(values@, answers@));
                assert(!values@.dom().subset_of(answers@.dom())) by {
                    assert(values@.dom().contains(id@) && !answers@.dom().contains(id@));
                }
            }
            return Err(
                complain(
                    "Unknown question ID ",
                    id.as_str(),
                    ". Use only the displayed question IDs.",
                ),
            );
        }
    }
    Ok(object("answers", Json::Object(answers)))
}

/// A reason against one of the first questions is the reason against all of them.
proof fn lemma_questions_stop(
    questions: Seq<JsonView>,
    keyed: Option<Map<Seq<char>, JsonView>>,
    input: Seq<char>,
    k: int,
)
    requires
        0 <= k <= questions.len(),
        with_questions(questions.take(k), keyed, input) is Err,
    ensures
        with_questions(questions, keyed, input) == with_questions(questions.take(k), keyed, input),
    decreases questions.len(),
{
    if k == questions.len() {
        assert(questions.take(k) =~= questions);
    } else {
        assert(questions.drop_last().take(k) =~= questions.take(k));
        lemma_questions_stop(questions.drop_last(), keyed, input, k);
    }
}

/// The answer to a request for user input, of which `read` is what the input denotes as JSON.
pub fn answer_questions(params: &Json, input: &str, read: &Result<Json, String>) -> (r: Result<
    Json,
    String,
>)
    ensures
        reading(r) == questions_answer(params@, input@, reading(*read)),
{
    let questions = match params.at("questions").as_array() {
        Some(questions) => questions,
        None => {
            return Err("Request has no questions to answer.".to_owned());
        },
    };
    if questions.len() == 0 {
        return Err("Request has no questions to answer.".to_owned());
    }
    proof {
        reveal_strlit("{");
        assert("{"@ =~= seq!['{']);
    }
    if questions.len() > 1 || starts_with(trim_start(input).as_str(), "{") {
        match read {
            Err(error) => {
                let mut reason = "Enter a JSON object keyed by question ID: ".to_owned();
                reason.append(error.as_str());
                Err(reason)
            },
            Ok(value) => match value.as_object() {
                Some(values) => route_answers(questions, Some(values), input),
                None => Err("Expected a JSON object keyed by question ID.".to_owned()),
            },
        }
    } else {
        route_answers(questions, None, input)
    }
}

/// The answer to an elicitation, of which `read` is what the input denotes as JSON.
pub fn answer_elicitation(params: &Json, input: &str, read: &Result<Json, String>) -> (r: Result<
    Json,
    String,
>)
    ensures
        reading(r) == elicitation_answer(params@, input@, reading(*read)),
{
    let entered = to_lower(trim(input).as_str());
    let entered = entered.as_str();
    if same(entered, "no") || same(entered, "n") {
        return Ok(object("action", Json::text("decline")));
    }
    if same(entered, "cancel") {
        return Ok(object("action", Json::text("cancel")));
    }
    let mode = params.at("mode");
    if mode.is_text("url") {
        if !(same(entered, "yes") || same(entered, "y")) {
            return Err(
                "Complete the action at the displayed URL, then enter yes to confirm, no to decline, or cancel.".to_owned(),
            );
        }
        let shown = match params.at("url").as_str() {
            Some(url) => !trim(url).as_str().is_empty(),
            None => false,
        };
        if !shown {
            return Err("URL elicitation is missing its URL; cannot confirm it.".to_owned());
        }
        // This acknowledges the user's explicit confirmation only. It
        // does not assert that this helper opened or completed the URL.
        Ok(object("action", Json::text("accept")))
    } else if mode.is_text("form") || mode.is_text("openai/form") || mode.is_text("openaiForm") {
        match read {
            Err(error) => {
                let mut reason =
                    "Submit form answers as a JSON object, or enter no/cancel: ".to_owned();
                reason.append(error.as_str());
                Err(reason)
            },
            Ok(content) => {
                if content.as_object().is_none() {
                    return Err(
                        "Form answers must be a JSON object matching requestedSchema.".to_owned(),
                    );
                }
                // Forward only user-supplied content. Schema validation remains the
                // eliciting server's responsibility; do not invent defaults.
                Ok(
                    Json::Object(
                        Object::new().with("action", Json::text("accept")).with(
                            "content",
                            content.clone(),
                        ),
                    ),
                )
            },
        }
    } else {
        Err(
            "Unsupported elicitation mode. Enter no/cancel, or use a client supporting the requested mode.".to_owned(),
        )
    }
}

/// The answer to a request, of which `read` is what the input denotes as JSON.
pub fn answer_read(request: &Json, input: &str, read: &Result<Json, String>) -> (r: Result<
    Json,
    String,
>)
    ensures
        reading(r) == answered(request@, input@, reading(*read)),
{
    let method = string_or(request.at("method"), "<missing method>");
    let params = request.at("params");
    if is_approval(method) {
        answer_approval(params, input)
    } else if same(method, "item/permissions/requestApproval") {
        answer_permissions(params, input)
    } else if same(method, "item/tool/requestUserInput") {
        answer_questions(params, input, read)
    } else if same(method, "mcpServer/elicitation/request") {
        answer_elicitation(params, input, read)
    } else {
        Err(
            complain(
                "Unsupported server request ",
                method,
                ". Send a JSON-RPC method-not-found error with reply_error; use a client that supports this method.",
            ),
        )
    }
}

/// Construct a response only from an explicit, valid user submission.
pub fn answer(request: &Json, input: &str) -> (r: Result<Json, String>)
    ensures
        reading(r) == answered(request@, input@, parsed(input@)),
        trimmed(input@).len() == 0 ==> r is Err,
{
    let read = parse(input);
    proof {
        if trimmed(input@).len() == 0 {
            nothing_left_is_blank(input@);
            empty_input_never_answers(request@, input@, reading(read));
        }
    }
    answer_read(request, input, &read)
}

// ---------------------------------------------------------------------------
// Laws
// ---------------------------------------------------------------------------

/// Displayed text holds no control character but line feeds, and no bidi control.
pub proof fn displayed_text_is_safe(s: Seq<char>)
    ensures
        forall|i: int| 0 <= i < escaped(s).len() ==> !dangerous(#[trigger] escaped(s)[i]),
    decreases s.len(),
{
    if s.len() > 0 {
        displayed_text_is_safe(s.drop_last());
        let head = escaped(s.drop_last());
        if dangerous(s.last()) {
            lemma_escape_is_safe(s.last());
            assert forall|i: int| 0 <= i < escaped(s).len() implies !dangerous(
                #[trigger] escaped(s)[i],
            ) by {
                if i < head.len() {
                    assert(escaped(s)[i] == head[i]);
                } else {
                    assert(escaped(s)[i] == escape(s.last())[i - head.len()]);
                }
            }
        }
    }
}

proof fn lemma_escape_is_safe(c: char)
    ensures
        forall|i: int| 0 <= i < escape(c).len() ==> !dangerous(#[trigger] escape(c)[i]),
{
    reveal_strlit("\\t");
    reveal_strlit("\\r");
    reveal_strlit("\\u{");
    reveal_strlit("}");
    lemma_hex_is_safe(c as nat);
}

proof fn lemma_hex_is_safe(n: nat)
    ensures
        forall|i: int| 0 <= i < hex(n).len() ==> !dangerous(#[trigger] hex(n)[i]),
    decreases n,
{
    if n >= 16 {
        lemma_hex_is_safe(n / 16);
        lemma_hex_digit_is_safe(n % 16);
        assert forall|i: int| 0 <= i < hex(n).len() implies !dangerous(#[trigger] hex(n)[i]) by {
            if i < hex(n / 16).len() {
                assert(hex(n)[i] == hex(n / 16)[i]);
            }
        }
    } else {
        lemma_hex_digit_is_safe(n);
    }
}

proof fn lemma_hex_digit_is_safe(d: nat)
    requires
        d < 16,
    ensures
        !dangerous(hex_digit(d)),
{
    let c = hex_digit(d);
    assert(48 <= c as u32 <= 102);
}

/// Text without control characters and bidi controls is displayed as it is.
pub proof fn safe_text_is_kept(s: Seq<char>)
    requires
        forall|i: int| 0 <= i < s.len() ==> !dangerous(#[trigger] s[i]),
    ensures
        escaped(s) == s,
    decreases s.len(),
{
    if s.len() > 0 {
        assert(!dangerous(s[s.len() - 1]));
        assert forall|i: int| 0 <= i < s.drop_last().len() implies !dangerous(
            #[trigger] s.drop_last()[i],
        ) by {
            assert(s.drop_last()[i] == s[i]);
        }
        safe_text_is_kept(s.drop_last());
        assert(s.drop_last().push(s.last()) =~= s);
    }
}

/// Escaping goes character by character.
pub proof fn escaping_distributes(a: Seq<char>, b: Seq<char>)
    ensures
        escaped(a + b) == escaped(a) + escaped(b),
    decreases b.len(),
{
    if b.len() == 0 {
        assert(a + b =~= a);
        assert(escaped(a) + escaped(b) =~= escaped(a));
    } else {
        escaping_distributes(a, b.drop_last());
        assert((a + b).drop_last() =~= a + b.drop_last());
        assert(escaped(a + b) =~= escaped(a) + escaped(b));
    }
}

/// A description is never cut short: it ends with the whole request.
pub proof fn descriptions_end_with_the_whole_request(request: JsonView)
    ensures
        escaped(pretty_text(request)).is_suffix_of(escaped(description(request))),
{
    let full = pretty_text(request);
    let d = description(request);
    let head = d.take(d.len() - full.len());
    assert(d =~= head + full);
    escaping_distributes(head, full);
    assert(escaped(full).is_suffix_of(escaped(head) + escaped(full)));
}

/// Approval is never implied and never reaches beyond one request: what is sent is a decision that
/// the user has entered, to accept only on a yes, and never one for the whole session.
pub proof fn approval_needs_an_explicit_decision(request: JsonView, input: Seq<char>, read: Reading)
    requires
        asks_approval(method_of(request)),
        answered(request, input, read) is Ok,
    ensures
        ({
            let sent = answered(request, input, read)->Ok_0;
            ||| says_yes(input) && sent == single("decision"@, JsonView::Text("accept"@))
            ||| says_no(input) && sent == single("decision"@, JsonView::Text("decline"@))
            ||| word(input) == "cancel"@ && sent == single("decision"@, JsonView::Text("cancel"@))
        }),
{
}

proof fn lemma_methods_differ()
    ensures
        !asks_approval("item/permissions/requestApproval"@),
        !asks_approval("item/tool/requestUserInput"@),
        "item/tool/requestUserInput"@ != "item/permissions/requestApproval"@,
{
    reveal_strlit("item/permissions/requestApproval");
    reveal_strlit("item/tool/requestUserInput");
    reveal_strlit("item/commandExecution/requestApproval");
    reveal_strlit("item/fileChange/requestApproval");
    assert("item/permissions/requestApproval"@.len() == 32);
    assert("item/tool/requestUserInput"@.len() == 26);
    assert("item/commandExecution/requestApproval"@.len() == 37);
    assert("item/fileChange/requestApproval"@.len() == 31);
}

/// Empty input approves nothing and grants nothing.
pub proof fn empty_input_never_approves(request: JsonView, input: Seq<char>, read: Reading)
    requires
        trimmed(input).len() == 0,
        asks_approval(method_of(request)) || method_of(request)
            == "item/permissions/requestApproval"@,
    ensures
        answered(request, input, read) is Err,
{
    lemma_methods_differ();
    lemma_blank_input(input);
}

/// Empty input answers no request at all, whatever its method. That it denotes no JSON is known where it
/// is read.
pub proof fn empty_input_never_answers(request: JsonView, input: Seq<char>, read: Reading)
    requires
        trimmed(input).len() == 0,
        read is Err,
    ensures
        answered(request, input, read) is Err,
{
    lemma_blank_input(input);
    let params = field(request, "params"@);
    if let Some(questions) = items_of(field(params, "questions"@)) {
        if questions.len() == 1 {
            lemma_blank_choice(questions[0], input);
            assert(questions.drop_last() =~= Seq::empty());
            assert(with_questions(questions.drop_last(), None, input) == Ok::<
                Map<Seq<char>, JsonView>,
                Seq<char>,
            >(no_members()));
            assert(with_questions(questions, None, input) is Err);
        }
    }
}

proof fn lemma_blank_choice(question: JsonView, input: Seq<char>)
    requires
        trimmed(input).len() == 0,
    ensures
        chosen_all(question, seq![JsonView::Text(input)]) is Err,
{
    let values = seq![JsonView::Text(input)];
    assert(values.drop_last() =~= Seq::empty());
    assert(values.last() == JsonView::Text(input));
    assert(chosen(question, values.last()) is Err);
}

proof fn lemma_blank_input(input: Seq<char>)
    requires
        trimmed(input).len() == 0,
    ensures
        !says_yes(input),
        !says_no(input),
        word(input) != "cancel"@,
{
    reveal_strlit("yes");
    reveal_strlit("y");
    reveal_strlit("no");
    reveal_strlit("n");
    reveal_strlit("cancel");
    assert(word(input).len() == 0);
    assert("yes"@.len() == 3 && "y"@.len() == 1 && "no"@.len() == 2 && "n"@.len() == 1
        && "cancel"@.len() == 6);
}

/// Where the server lists the decisions that it offers, nothing else is sent.
pub proof fn available_decisions_are_authoritative(
    request: JsonView,
    input: Seq<char>,
    read: Reading,
)
    requires
        asks_approval(method_of(request)),
        !(field(field(request, "params"@), "availableDecisions"@) is Null),
        answered(request, input, read) is Ok,
    ensures
        match field(field(request, "params"@), "availableDecisions"@) {
            JsonView::Array(offered) => offered.contains(
                field(answered(request, input, read)->Ok_0, "decision"@),
            ),
            _ => false,
        },
{
}

/// Permissions are granted as requested or not at all, and for one turn.
pub proof fn permissions_are_exact_and_for_one_turn(
    request: JsonView,
    input: Seq<char>,
    read: Reading,
)
    requires
        method_of(request) == "item/permissions/requestApproval"@,
        answered(request, input, read) is Ok,
    ensures
        ({
            let sent = answered(request, input, read)->Ok_0;
            &&& field(sent, "scope"@) == JsonView::Text("turn"@)
            &&& if says_yes(input) {
                field(sent, "permissions"@) == field(field(request, "params"@), "permissions"@)
            } else {
                field(sent, "permissions"@) == JsonView::Object(no_members())
            }
        }),
{
    lemma_methods_differ();
    reveal_strlit("permissions");
    reveal_strlit("scope");
    assert("permissions"@.len() != "scope"@.len());
}

/// A request that is not supported is never answered as if it were.
pub proof fn unknown_requests_never_succeed(request: JsonView, input: Seq<char>, read: Reading)
    requires
        !supported(method_of(request)),
    ensures
        answered(request, input, read) is Err,
{
}

/// Whether an answer is refused because its request is not supported.
pub open spec fn refused_as_unsupported(answer: Reading) -> bool {
    answer is Err && "Unsupported server request "@.is_prefix_of(answer->Err_0)
}

/// Whether a text holds another one.
pub open spec fn mentions(text: Seq<char>, part: Seq<char>) -> bool {
    exists|i: int|
        0 <= i && i + part.len() <= text.len() && #[trigger] text.subrange(i, i + part.len())
            == part
}

/// Whether a client can answer requests with a method.
pub open spec fn supported(method: Seq<char>) -> bool {
    method == "item/commandExecution/requestApproval"@ || method
        == "item/fileChange/requestApproval"@ || method == "item/permissions/requestApproval"@
        || method == "item/tool/requestUserInput"@ || method == "mcpServer/elicitation/request"@
}

/// Whatever is entered, an answer is refused as one to an unsupported request if and only if the
/// method is none of those that can be answered.
pub proof fn only_unknown_methods_are_unsupported(
    request: JsonView,
    input: Seq<char>,
    read: Reading,
)
    ensures
        refused_as_unsupported(answered(request, input, read)) <==> !supported(method_of(request)),
{
    let method = method_of(request);
    let params = field(request, "params"@);
    reveal_strlit("Unsupported server request ");
    if !supported(method) {
        let end =
            ". Send a JSON-RPC method-not-found error with reply_error; use a client that supports this method."@;
        assert("Unsupported server request "@.is_prefix_of(
            "Unsupported server request "@ + escaped(method) + end,
        ));
    } else {
        lemma_complaints_are_own();
        if method == "item/tool/requestUserInput"@ {
            if let Some(questions) = items_of(field(params, "questions"@)) {
                let keyed = match read {
                    Ok(JsonView::Object(values)) => Some(values),
                    _ => None,
                };
                lemma_questions_complain(questions, keyed, input);
                lemma_questions_complain(questions, None, input);
            }
        }
        let answer = answered(request, input, read);
        let start = "Unsupported server request "@;
        assert(answer is Err ==> own(answer->Err_0));
        if refused_as_unsupported(answer) {
            let text = answer->Err_0;
            assert(start.len() == 27);
            assert(text.subrange(0, 27) == start);
            assert(text[0] == start[0] && text[1] == start[1] && text[2] == start[2] && text[12]
                == start[12]);
        }
    }
}

/// What tells the complaints about answers from the one about unsupported requests.
spec fn own(text: Seq<char>) -> bool {
    text.len() > 0 && (text[0] != 'U' || (text.len() > 2 && (text[1] != 'n' || text[2] != 's')) || (
    text.len() > 12 && text[12] != 's'))
}

proof fn lemma_complaints_are_own()
    ensures
        forall|decision: Seq<char>, available: JsonView|
            own(#[trigger] not_offered(decision, available)),
        own("Enter yes, no, or cancel. Empty input never approves a request."@),
        own("Invalid availableDecisions: expected an array; no decision sent."@),
        own("Missing or invalid requested permissions; no grant sent."@),
        own("Enter yes to grant the requested permissions for this turn, or no to grant none."@),
        own("Answers must be text, option numbers, or arrays of those values."@),
        own("Enter an answer; empty input does not select an option."@),
        own("Choose an option number from 1 to "@),
        own("Question is missing a nonempty ID; cannot route its answer."@),
        own("Duplicate question ID "@),
        own("Missing answer for question "@),
        own("Enter at least one answer for question "@),
        own("Unknown question ID "@),
        own("Request has no questions to answer."@),
        own("Enter a JSON object keyed by question ID: "@),
        own("Expected a JSON object keyed by question ID."@),
        own("Complete the action at the displayed URL, then enter yes to confirm, no to decline, or cancel."@),
        own("URL elicitation is missing its URL; cannot confirm it."@),
        own("Submit form answers as a JSON object, or enter no/cancel: "@),
        own("Form answers must be a JSON object matching requestedSchema."@),
        own("Unsupported elicitation mode. Enter no/cancel, or use a client supporting the requested mode."@),
{
    reveal_strlit("Decision \"");
    reveal_strlit("Enter yes, no, or cancel. Empty input never approves a request.");
    reveal_strlit("Invalid availableDecisions: expected an array; no decision sent.");
    reveal_strlit("Missing or invalid requested permissions; no grant sent.");
    reveal_strlit("Enter yes to grant the requested permissions for this turn, or no to grant none.");
    reveal_strlit("Answers must be text, option numbers, or arrays of those values.");
    reveal_strlit("Enter an answer; empty input does not select an option.");
    reveal_strlit("Choose an option number from 1 to ");
    reveal_strlit("Question is missing a nonempty ID; cannot route its answer.");
    reveal_strlit("Duplicate question ID ");
    reveal_strlit("Missing answer for question ");
    reveal_strlit("Enter at least one answer for question ");
    reveal_strlit("Unknown question ID ");
    reveal_strlit("Request has no questions to answer.");
    reveal_strlit("Enter a JSON object keyed by question ID: ");
    reveal_strlit("Expected a JSON object keyed by question ID.");
    reveal_strlit("Complete the action at the displayed URL, then enter yes to confirm, no to decline, or cancel.");
    reveal_strlit("URL elicitation is missing its URL; cannot confirm it.");
    reveal_strlit("Submit form answers as a JSON object, or enter no/cancel: ");
    reveal_strlit("Form answers must be a JSON object matching requestedSchema.");
    reveal_strlit("Unsupported elicitation mode. Enter no/cancel, or use a client supporting the requested mode.");
}

proof fn lemma_chosen_complains(question: JsonView, values: Seq<JsonView>)
    ensures
        chosen_all(question, values) is Err ==> own(chosen_all(question, values)->Err_0),
    decreases values.len(),
{
    lemma_complaints_are_own();
    if values.len() > 0 {
        lemma_chosen_complains(question, values.drop_last());
        let reason = chosen(question, values.last());
        assert(reason is Err ==> own(reason->Err_0));
    }
}

proof fn lemma_questions_complain(
    questions: Seq<JsonView>,
    keyed: Option<Map<Seq<char>, JsonView>>,
    input: Seq<char>,
)
    ensures
        with_questions(questions, keyed, input) is Err ==> own(
            with_questions(questions, keyed, input)->Err_0,
        ),
    decreases questions.len(),
{
    lemma_complaints_are_own();
    if questions.len() > 0 {
        lemma_questions_complain(questions.drop_last(), keyed, input);
        if let Ok(answers) = with_questions(questions.drop_last(), keyed, input) {
            let question = questions.last();
            let id = text_or(field(question, "id"@), Seq::empty());
            let value = match keyed {
                Some(values) => values[id],
                None => JsonView::Text(input),
            };
            let values = match value {
                JsonView::Array(values) => values,
                _ => seq![value],
            };
            lemma_chosen_complains(question, values);
        }
    }
}

/// A request that can be answered has an answer, or an error, that mentions no unsupported request:
/// the input for it, and what that is read as.
pub proof fn answer_of_its_own(request: JsonView) -> (r: (Seq<char>, Reading))
    requires
        supported(method_of(request)),
    ensures
        answered(request, r.0, r.1) is Ok || !mentions(
            answered(request, r.0, r.1)->Err_0,
            "Unsupported server request"@,
        ),
{
    let nothing: Reading = Err(Seq::empty());
    lemma_methods_differ();
    if asks_approval(method_of(request)) {
        lemma_no_capital_u();
        assert(trimmed(Seq::empty()).len() == 0);
        lemma_blank_input(Seq::empty());
        assert(answered(request, Seq::empty(), nothing) == Reading::Err(
            "Enter yes, no, or cancel. Empty input never approves a request."@,
        ));
        (Seq::empty(), nothing)
    } else if method_of(request) == "item/tool/requestUserInput"@ {
        lemma_no_capital_u();
        let complaint = "Enter a JSON object keyed by question ID: "@;
        assert(complaint + Seq::<char>::empty() =~= complaint);
        assert(seq!['{'].is_prefix_of(trim_front(seq!['{'])));
        (seq!['{'], nothing)
    } else {
        reveal_strlit("no");
        assert(trim_front("no"@) == "no"@);
        assert(trimmed("no"@) == "no"@);
        assert(word("no"@) =~= "no"@);
        lemma_no_is_not_yes();
        assert(answered(request, "no"@, nothing) is Ok);
        ("no"@, nothing)
    }
}

/// A text without a capital U mentions no unsupported request.
proof fn lemma_no_mention(text: Seq<char>)
    requires
        forall|i: int| 0 <= i < text.len() ==> #[trigger] text[i] != 'U',
    ensures
        !mentions(text, "Unsupported server request"@),
{
    let part = "Unsupported server request"@;
    reveal_strlit("Unsupported server request");
    assert(part.len() == 26 && part[0] == 'U');
    if mentions(text, part) {
        let i = choose|i: int|
            0 <= i && i + part.len() <= text.len() && #[trigger] text.subrange(i, i + part.len())
                == part;
        assert(text.subrange(i, i + part.len())[0] == text[i]);
    }
}

proof fn lemma_no_capital_u()
    ensures
        !mentions(
            "Enter yes, no, or cancel. Empty input never approves a request."@,
            "Unsupported server request"@,
        ),
        !mentions("Request has no questions to answer."@, "Unsupported server request"@),
        !mentions("Enter a JSON object keyed by question ID: "@, "Unsupported server request"@),
{
    reveal_strlit("Enter yes, no, or cancel. Empty input never approves a request.");
    reveal_strlit("Request has no questions to answer.");
    reveal_strlit("Enter a JSON object keyed by question ID: ");
    lemma_no_mention("Enter yes, no, or cancel. Empty input never approves a request."@);
    lemma_no_mention("Request has no questions to answer."@);
    lemma_no_mention("Enter a JSON object keyed by question ID: "@);
}

proof fn lemma_no_is_not_yes()
    ensures
        "no"@ != "yes"@,
        "no"@ != "y"@,
{
    reveal_strlit("no");
    reveal_strlit("yes");
    reveal_strlit("y");
    assert("no"@.len() == 2 && "yes"@.len() == 3 && "y"@.len() == 1);
}

/// The ID of a question.
pub open spec fn question_id(question: JsonView) -> Seq<char> {
    text_or(field(question, "id"@), Seq::empty())
}

/// Every question is answered under its own ID, and nothing else is.
pub proof fn answers_are_keyed_by_question(
    questions: Seq<JsonView>,
    keyed: Option<Map<Seq<char>, JsonView>>,
    input: Seq<char>,
)
    requires
        with_questions(questions, keyed, input) is Ok,
    ensures
        forall|id: Seq<char>| #[trigger]
            with_questions(questions, keyed, input)->Ok_0.dom().contains(id) <==> exists|i: int|
                0 <= i < questions.len() && question_id(#[trigger] questions[i]) == id,
        forall|i: int, j: int|
            0 <= i < j < questions.len() ==> question_id(#[trigger] questions[i]) != question_id(
                #[trigger] questions[j],
            ),
    decreases questions.len(),
{
    let all = with_questions(questions, keyed, input)->Ok_0;
    if questions.len() > 0 {
        let rest = questions.drop_last();
        answers_are_keyed_by_question(rest, keyed, input);
        let before = with_questions(rest, keyed, input)->Ok_0;
        let last = question_id(questions.last());
        assert forall|id: Seq<char>| #[trigger] all.dom().contains(id) implies exists|i: int|
            0 <= i < questions.len() && question_id(#[trigger] questions[i]) == id by {
            if before.dom().contains(id) {
                let i = choose|i: int|
                    0 <= i < rest.len() && question_id(#[trigger] rest[i]) == id;
                assert(question_id(questions[i]) == id);
            } else {
                assert(question_id(questions[questions.len() - 1]) == id);
            }
        }
        assert forall|id: Seq<char>|
            (exists|i: int| 0 <= i < questions.len() && question_id(#[trigger] questions[i])
                == id) implies #[trigger] all.dom().contains(id) by {
            let i = choose|i: int|
                0 <= i < questions.len() && question_id(#[trigger] questions[i]) == id;
            if i < rest.len() {
                assert(question_id(rest[i]) == id);
                assert(before.dom().contains(id));
            }
        }
        assert forall|i: int, j: int| 0 <= i < j < questions.len() implies question_id(
            #[trigger] questions[i],
        ) != question_id(#[trigger] questions[j]) by {
            if j < rest.len() {
                assert(question_id(rest[i]) != question_id(rest[j]));
            } else {
                assert(question_id(rest[i]) == question_id(questions[i]));
                assert(before.dom().contains(question_id(questions[i])));
            }
        }
    }
}

// ---------------------------------------------------------------------------
// What is sent for what was entered
// ---------------------------------------------------------------------------

proof fn lemma_methods_have_lengths()
    ensures
        "item/commandExecution/requestApproval"@.len() == 37,
        "item/fileChange/requestApproval"@.len() == 31,
        "item/permissions/requestApproval"@.len() == 32,
        "item/tool/requestUserInput"@.len() == 26,
        "mcpServer/elicitation/request"@.len() == 29,
{
    reveal_strlit("item/commandExecution/requestApproval");
    reveal_strlit("item/fileChange/requestApproval");
    reveal_strlit("item/permissions/requestApproval");
    reveal_strlit("item/tool/requestUserInput");
    reveal_strlit("mcpServer/elicitation/request");
}

proof fn lemma_words_differ()
    ensures
        "yes"@.len() == 3,
        "y"@.len() == 1 && "y"@[0] == 'y',
        "no"@.len() == 2,
        "n"@.len() == 1 && "n"@[0] == 'n',
        "cancel"@.len() == 6,
        "accept"@ != "decline"@,
        "accept"@ != "cancel"@,
        "decline"@ != "cancel"@,
{
    reveal_strlit("yes");
    reveal_strlit("y");
    reveal_strlit("no");
    reveal_strlit("n");
    reveal_strlit("cancel");
    reveal_strlit("accept");
    reveal_strlit("decline");
    assert("accept"@.len() == 6 && "decline"@.len() == 7 && "cancel"@.len() == 6);
    assert("accept"@[0] == 'a' && "cancel"@[0] == 'c');
}

/// An approval is answered with the decision that was entered, in whatever case: accepted on yes or y,
/// declined on no or n, cancelled on cancel. Nothing else is a decision, and where the server lists the
/// decisions that it offers, one that is not listed is not sent.
pub proof fn approvals_are_decided_as_entered(request: JsonView, input: Seq<char>, read: Reading)
    requires
        field(request, "method"@) == JsonView::Text("item/commandExecution/requestApproval"@)
            || field(request, "method"@) == JsonView::Text("item/fileChange/requestApproval"@),
    ensures
        ({
            let said = lower(trimmed(input));
            let offered = field(field(request, "params"@), "availableDecisions"@);
            let free = |decision: Seq<char>|
                offered is Null || (offered is Array && offered->Array_0.contains(
                    JsonView::Text(decision),
                ));
            let sent = answered(request, input, read);
            &&& (said == "yes"@ || said == "y"@) && free("accept"@) <==> sent is Ok && field(
                sent->Ok_0,
                "decision"@,
            ) == JsonView::Text("accept"@)
            &&& (said == "no"@ || said == "n"@) && free("decline"@) <==> sent is Ok && field(
                sent->Ok_0,
                "decision"@,
            ) == JsonView::Text("decline"@)
            &&& said == "cancel"@ && free("cancel"@) <==> sent is Ok && field(
                sent->Ok_0,
                "decision"@,
            ) == JsonView::Text("cancel"@)
            &&& sent is Ok ==> sent->Ok_0 is Object && sent->Ok_0->Object_0.dom() =~= set![
                "decision"@,
            ] && (field(sent->Ok_0, "decision"@) == JsonView::Text("accept"@) || field(
                sent->Ok_0,
                "decision"@,
            ) == JsonView::Text("decline"@) || field(sent->Ok_0, "decision"@) == JsonView::Text(
                "cancel"@,
            ))
        }),
{
    lemma_methods_have_lengths();
    lemma_words_differ();
}

/// Permissions are granted on yes or y, all that were asked for and for one turn, and none on no or n.
/// Nothing else is an answer, nor is a yes where none were asked for.
pub proof fn permissions_are_granted_as_entered(
    request: JsonView,
    input: Seq<char>,
    read: Reading,
)
    requires
        field(request, "method"@) == JsonView::Text("item/permissions/requestApproval"@),
    ensures
        ({
            let said = lower(trimmed(input));
            let asked = field(field(request, "params"@), "permissions"@);
            let sent = answered(request, input, read);
            let yes = (said == "yes"@ || said == "y"@) && asked is Object;
            let no = said == "no"@ || said == "n"@;
            &&& sent is Ok <==> yes || no
            &&& sent is Ok ==> sent->Ok_0 is Object && sent->Ok_0->Object_0.dom() =~= set![
                "permissions"@,
                "scope"@,
            ] && field(sent->Ok_0, "scope"@) == JsonView::Text("turn"@)
            &&& yes ==> field(sent->Ok_0, "permissions"@) == asked
            &&& no ==> field(sent->Ok_0, "permissions"@) is Object && field(
                sent->Ok_0,
                "permissions"@,
            )->Object_0.dom() =~= Set::empty()
        }),
{
    lemma_methods_have_lengths();
    lemma_words_differ();
    reveal_strlit("permissions");
    reveal_strlit("scope");
    assert("permissions"@.len() == 11 && "scope"@.len() == 5);
}

/// An elicitation is declined on no or n and cancelled on cancel, whatever its mode. One for a URL is
/// accepted on yes or y, if it has one; one for a form is accepted with the object that was entered, and
/// with nothing but that object. Nothing else is an answer.
pub proof fn elicitations_are_answered_as_entered(
    request: JsonView,
    input: Seq<char>,
    read: Reading,
)
    requires
        field(request, "method"@) == JsonView::Text("mcpServer/elicitation/request"@),
    ensures
        ({
            let said = lower(trimmed(input));
            let params = field(request, "params"@);
            let mode = field(params, "mode"@);
            let url = field(params, "url"@);
            let sent = answered(request, input, read);
            let no = said == "no"@ || said == "n"@;
            let stop = said == "cancel"@;
            let visited = !no && !stop && mode == JsonView::Text("url"@) && (said == "yes"@ || said
                == "y"@) && url is Text && trimmed(url->Text_0).len() > 0;
            let filled = !no && !stop && (mode == JsonView::Text("form"@) || mode
                == JsonView::Text("openai/form"@) || mode == JsonView::Text("openaiForm"@)) && read
                is Ok && read->Ok_0 is Object;
            &&& sent is Ok <==> no || stop || visited || filled
            &&& no ==> field(sent->Ok_0, "action"@) == JsonView::Text("decline"@)
            &&& stop ==> field(sent->Ok_0, "action"@) == JsonView::Text("cancel"@)
            &&& visited || filled ==> field(sent->Ok_0, "action"@) == JsonView::Text("accept"@)
            &&& filled ==> field(sent->Ok_0, "content"@) == read->Ok_0 && sent->Ok_0->Object_0.dom()
                =~= set!["action"@, "content"@]
            &&& sent is Ok && !filled ==> sent->Ok_0 is Object && sent->Ok_0->Object_0.dom()
                =~= set!["action"@]
        }),
{
    lemma_methods_have_lengths();
    lemma_words_differ();
    reveal_strlit("action");
    reveal_strlit("content");
    reveal_strlit("url");
    reveal_strlit("form");
    reveal_strlit("openai/form");
    reveal_strlit("openaiForm");
    assert("action"@.len() == 6 && "content"@.len() == 7 && "url"@.len() == 3 && "form"@.len() == 4
        && "openai/form"@.len() == 11 && "openaiForm"@.len() == 10);
}

/// An option is chosen by its number, counted from one, whether that is entered as text or as a number:
/// the answer is the label of that very option. So options with different labels are chosen by different
/// numbers.
pub proof fn an_option_is_chosen_by_its_number(
    question: JsonView,
    options: Seq<JsonView>,
    n: nat,
    label: Seq<char>,
    entered: Seq<char>,
)
    requires
        field(question, "options"@) == JsonView::Array(options),
        1 <= n <= options.len(),
        field(options[n - 1], "label"@) == JsonView::Text(label),
        trimmed(entered) == decimal(n),
    ensures
        chosen(question, JsonView::Text(entered)) == Ok::<Seq<char>, Seq<char>>(label),
        n <= u64::MAX ==> chosen(question, JsonView::Num(NumberView::Pos(n as u64))) == Ok::<
            Seq<char>,
            Seq<char>,
        >(label),
{
    decimals_are_read_back(n);
    lemma_decimal_is_trimmed(n);
}

proof fn lemma_decimal_is_trimmed(n: nat)
    ensures
        trimmed(decimal(n)) == decimal(n),
{
    decimals_are_read_back(n);
    let s = decimal(n);
    assert(is_digit(s[0]) && is_digit(s[s.len() - 1]));
    assert(trim_front(s) == s);
}

/// A number that no option has, and the number of an option without a label, choose nothing.
pub proof fn a_number_without_an_option_chooses_nothing(
    question: JsonView,
    options: Seq<JsonView>,
    entered: Seq<char>,
)
    requires
        field(question, "options"@) == JsonView::Array(options),
        options.len() > 0,
        trimmed(entered).len() > 0,
        forall|i: int| 0 <= i < trimmed(entered).len() ==> '0' <= #[trigger] trimmed(entered)[i] <= '9',
    ensures
        number(trimmed(entered)) == 0 || number(trimmed(entered)) > options.len() ==> chosen(
            question,
            JsonView::Text(entered),
        ) is Err,
        1 <= number(trimmed(entered)) <= options.len() && !(field(
            options[number(trimmed(entered)) - 1],
            "label"@,
        ) is Text) ==> chosen(question, JsonView::Text(entered)) is Err,
{
    assert(all_digits(trimmed(entered)));
}

/// Any other text is an answer as it is, to the last space; but not one without anything in it.
pub proof fn other_text_is_an_answer_as_it_is(
    question: JsonView,
    entered: Seq<char>,
    i: int,
)
    ensures
        trimmed(entered).len() == 0 ==> chosen(question, JsonView::Text(entered)) is Err,
        trimmed(entered).len() > 0 && !(field(question, "options"@) is Array) ==> chosen(
            question,
            JsonView::Text(entered),
        ) == Ok::<Seq<char>, Seq<char>>(entered),
        trimmed(entered).len() > 0 && field(question, "options"@) is Array && field(
            question,
            "options"@,
        )->Array_0.len() == 0 ==> chosen(question, JsonView::Text(entered)) == Ok::<
            Seq<char>,
            Seq<char>,
        >(entered),
        0 <= i < trimmed(entered).len() && !('0' <= trimmed(entered)[i] <= '9') ==> chosen(
            question,
            JsonView::Text(entered),
        ) == Ok::<Seq<char>, Seq<char>>(entered),
{
    if 0 <= i < trimmed(entered).len() && !('0' <= trimmed(entered)[i] <= '9') {
        assert(!is_digit(trimmed(entered)[i]));
        assert(!all_digits(trimmed(entered)));
    }
}

/// A number is the same answer as its digits, and nothing but texts and numbers from zero on is one.
pub proof fn numbers_are_answers_by_their_digits(question: JsonView, value: JsonView, u: u64)
    ensures
        chosen(question, JsonView::Num(NumberView::Pos(u))) == chosen(
            question,
            JsonView::Text(decimal(u as nat)),
        ),
        !(value is Text) && !(value is Num && value->Num_0 is Pos) ==> chosen(
            question,
            value,
        ) is Err,
{
}

/// Several answers to one question are sent together, each by itself and in their order, and only if all
/// of them are answers.
pub proof fn several_answers_keep_their_order(question: JsonView, values: Seq<JsonView>)
    ensures
        chosen_all(question, values) is Ok <==> forall|i: int|
            0 <= i < values.len() ==> chosen(question, #[trigger] values[i]) is Ok,
        chosen_all(question, values) is Ok ==> {
            let sent = chosen_all(question, values)->Ok_0;
            &&& sent.len() == values.len()
            &&& forall|i: int|
                0 <= i < values.len() ==> #[trigger] sent[i] == JsonView::Text(
                    chosen(question, values[i])->Ok_0,
                )
        },
    decreases values.len(),
{
    if values.len() > 0 {
        let rest = values.drop_last();
        several_answers_keep_their_order(question, rest);
        assert forall|i: int| 0 <= i < rest.len() implies rest[i] == #[trigger] values[i] by {}
        assert(values[values.len() - 1] == values.last());
        if chosen_all(question, rest) is Ok && chosen(question, values.last()) is Ok {
            let sent = chosen_all(question, values)->Ok_0;
            let before = chosen_all(question, rest)->Ok_0;
            assert forall|i: int| 0 <= i < values.len() implies #[trigger] sent[i]
                == JsonView::Text(chosen(question, values[i])->Ok_0) by {
                if i < rest.len() {
                    assert(sent[i] == before[i]);
                    assert(rest[i] == values[i]);
                }
            }
            assert forall|i: int| 0 <= i < values.len() implies chosen(
                question,
                #[trigger] values[i],
            ) is Ok by {
                if i < rest.len() {
                    assert(chosen(question, rest[i]) is Ok);
                }
            }
        } else if chosen_all(question, rest) is Err {
            let i = choose|i: int| 0 <= i < rest.len() && !(chosen(question, #[trigger] rest[i]) is Ok);
            assert(!(chosen(question, values[i]) is Ok));
        }
    }
}

/// The values that are entered for a question: where they are keyed, those under its ID, one or a list of
/// them; otherwise the input itself.
pub open spec fn values_for(
    id: Seq<char>,
    keyed: Option<Map<Seq<char>, JsonView>>,
    input: Seq<char>,
) -> Seq<JsonView> {
    match keyed {
        None => seq![JsonView::Text(input)],
        Some(values) => match values[id] {
            JsonView::Array(list) => list,
            value => seq![value],
        },
    }
}

/// The question at a place is answered by what was entered for it: under its ID, and with each of its
/// values in its order.
pub open spec fn answers_question(
    question: JsonView,
    keyed: Option<Map<Seq<char>, JsonView>>,
    input: Seq<char>,
    answers: Map<Seq<char>, JsonView>,
) -> bool {
    match field(question, "id"@) {
        JsonView::Text(id) => {
            let values = values_for(id, keyed, input);
            let sent = field(answers[id], "answers"@);
            &&& id.len() > 0
            &&& answers.dom().contains(id)
            &&& keyed is Some ==> keyed->Some_0.dom().contains(id)
            &&& answers[id] is Object && answers[id]->Object_0.dom() =~= set!["answers"@]
            &&& sent is Array
            &&& sent->Array_0.len() == values.len() && values.len() > 0
            &&& forall|k: int|
                0 <= k < values.len() ==> chosen(question, #[trigger] values[k]) is Ok
                    && sent->Array_0[k] == JsonView::Text(chosen(question, values[k])->Ok_0)
        },
        _ => false,
    }
}

proof fn lemma_question_answered(
    answers: Map<Seq<char>, JsonView>,
    question: JsonView,
    keyed: Option<Map<Seq<char>, JsonView>>,
    input: Seq<char>,
)
    requires
        with_question(answers, question, keyed, input) is Ok,
    ensures
        ({
            let more = with_question(answers, question, keyed, input)->Ok_0;
            let id = field(question, "id"@)->Text_0;
            &&& answers_question(question, keyed, input, more)
            &&& !answers.dom().contains(id)
            &&& more == answers.insert(id, more[id])
        }),
{
    let id = text_or(field(question, "id"@), Seq::empty());
    let values = values_for(id, keyed, input);
    several_answers_keep_their_order(question, values);
    let more = with_question(answers, question, keyed, input)->Ok_0;
    assert(more =~= answers.insert(id, more[id]));
    assert forall|k: int| 0 <= k < values.len() implies chosen(question, #[trigger] values[k]) is Ok
        && field(more[id], "answers"@)->Array_0[k] == JsonView::Text(
        chosen(question, values[k])->Ok_0,
    ) by {
        let sent = chosen_all(question, values)->Ok_0;
        assert(sent[k] == JsonView::Text(chosen(question, values[k])->Ok_0));
    }
}

proof fn lemma_questions_answered(
    questions: Seq<JsonView>,
    keyed: Option<Map<Seq<char>, JsonView>>,
    input: Seq<char>,
)
    requires
        with_questions(questions, keyed, input) is Ok,
    ensures
        ({
            let answers = with_questions(questions, keyed, input)->Ok_0;
            &&& forall|i: int|
                0 <= i < questions.len() ==> answers_question(
                    #[trigger] questions[i],
                    keyed,
                    input,
                    answers,
                )
            &&& forall|i: int, j: int|
                0 <= i < j < questions.len() ==> field(#[trigger] questions[i], "id"@) != field(
                    #[trigger] questions[j],
                    "id"@,
                )
            &&& forall|id: Seq<char>| #[trigger]
                answers.dom().contains(id) ==> exists|i: int|
                    0 <= i < questions.len() && field(#[trigger] questions[i], "id"@)
                        == JsonView::Text(id)
        }),
    decreases questions.len(),
{
    if questions.len() > 0 {
        let rest = questions.drop_last();
        let last = questions.last();
        lemma_questions_answered(rest, keyed, input);
        let before = with_questions(rest, keyed, input)->Ok_0;
        lemma_question_answered(before, last, keyed, input);
        let answers = with_questions(questions, keyed, input)->Ok_0;
        let id = field(last, "id"@)->Text_0;
        assert forall|i: int| 0 <= i < questions.len() implies answers_question(
            #[trigger] questions[i],
            keyed,
            input,
            answers,
        ) by {
            if i < rest.len() {
                assert(rest[i] == questions[i]);
                let other = field(rest[i], "id"@)->Text_0;
                assert(answers_question(rest[i], keyed, input, before));
                assert(before.dom().contains(other));
                assert(answers[other] == before[other]);
            }
        }
        assert forall|i: int, j: int| 0 <= i < j < questions.len() implies field(
            #[trigger] questions[i],
            "id"@,
        ) != field(#[trigger] questions[j], "id"@) by {
            assert(rest[i] == questions[i]);
            if j < rest.len() {
                assert(rest[j] == questions[j]);
            } else {
                assert(answers_question(rest[i], keyed, input, before));
            }
        }
        assert forall|k: Seq<char>| #[trigger] answers.dom().contains(k) implies exists|i: int|
            0 <= i < questions.len() && field(#[trigger] questions[i], "id"@) == JsonView::Text(
                k,
            ) by {
            if k == id {
                assert(field(questions[questions.len() - 1], "id"@) == JsonView::Text(k));
            } else {
                assert(before.dom().contains(k));
                let i = choose|i: int|
                    0 <= i < rest.len() && field(#[trigger] rest[i], "id"@) == JsonView::Text(k);
                assert(field(questions[i], "id"@) == JsonView::Text(k));
            }
        }
    }
}

/// Questions are answered by what was entered for each of them: every question has its answer under its
/// ID, no other ID has one, and no two questions share one. More questions than one, and input that
/// begins with a brace, are read as an object whose keys are just the IDs; a single question is answered
/// by the input itself.
pub proof fn answers_go_to_their_questions(
    request: JsonView,
    questions: Seq<JsonView>,
    input: Seq<char>,
    read: Reading,
)
    requires
        field(request, "method"@) == JsonView::Text("item/tool/requestUserInput"@),
        field(field(request, "params"@), "questions"@) == JsonView::Array(questions),
        answered(request, input, read) is Ok,
    ensures
        ({
            let sent = answered(request, input, read)->Ok_0;
            let answers = field(sent, "answers"@)->Object_0;
            let braced = trimmed(input).len() > 0 && trimmed(input)[0] == '{';
            let keyed = if questions.len() > 1 || braced {
                Some(read->Ok_0->Object_0)
            } else {
                None
            };
            &&& questions.len() > 0
            &&& sent is Object && sent->Object_0.dom() =~= set!["answers"@]
            &&& field(sent, "answers"@) is Object
            &&& questions.len() > 1 || braced ==> read is Ok && read->Ok_0 is Object
                && read->Ok_0->Object_0.dom() =~= answers.dom()
            &&& forall|i: int|
                0 <= i < questions.len() ==> answers_question(
                    #[trigger] questions[i],
                    keyed,
                    input,
                    answers,
                )
            &&& forall|i: int, j: int|
                0 <= i < j < questions.len() ==> field(#[trigger] questions[i], "id"@) != field(
                    #[trigger] questions[j],
                    "id"@,
                )
            &&& forall|id: Seq<char>| #[trigger]
                answers.dom().contains(id) ==> exists|i: int|
                    0 <= i < questions.len() && field(#[trigger] questions[i], "id"@)
                        == JsonView::Text(id)
        }),
{
    lemma_methods_have_lengths();
    lemma_brace(input);
    let braced = trimmed(input).len() > 0 && trimmed(input)[0] == '{';
    let keyed: Option<Map<Seq<char>, JsonView>> = if questions.len() > 1 || braced {
        Some(read->Ok_0->Object_0)
    } else {
        None
    };
    assert(answered(request, input, read) == route(questions, keyed, input));
    lemma_questions_answered(questions, keyed, input);
    let answers = with_questions(questions, keyed, input)->Ok_0;
    if let Some(values) = keyed {
        assert forall|id: Seq<char>| answers.dom().contains(id) implies values.dom().contains(
            id,
        ) by {
            let i = choose|i: int|
                0 <= i < questions.len() && field(#[trigger] questions[i], "id"@)
                    == JsonView::Text(id);
            assert(answers_question(questions[i], keyed, input, answers));
        }
        assert(values.dom() =~= answers.dom());
    }
}

/// Whether input begins with a brace does not depend on the white space around it.
proof fn lemma_brace(input: Seq<char>)
    ensures
        seq!['{'].is_prefix_of(trim_front(input)) <==> trimmed(input).len() > 0 && trimmed(input)[0]
            == '{',
{
    let t = trim_front(input);
    if trimmed(input).len() > 0 {
        trimming_keeps_the_first_character(input);
        assert(t.subrange(0, 1) =~= seq![t[0]]);
        assert(seq!['{'][0] == '{');
        if seq!['{'].is_prefix_of(t) {
            assert(t.subrange(0, 1)[0] == '{');
        }
    } else if seq!['{'].is_prefix_of(t) {
        assert(t.subrange(0, 1)[0] == '{');
        nothing_left_is_blank(input);
        lemma_front_of_blank(input);
    }
}

proof fn lemma_front_of_blank(s: Seq<char>)
    requires
        forall|i: int| 0 <= i < s.len() ==> space(#[trigger] s[i]),
    ensures
        trim_front(s).len() == 0,
    decreases s.len(),
{
    if s.len() > 0 {
        assert(space(s[0]));
        assert forall|i: int| 0 <= i < s.drop_first().len() implies space(
            #[trigger] s.drop_first()[i],
        ) by {
            assert(s.drop_first()[i] == s[i + 1]);
        }
        lemma_front_of_blank(s.drop_first());
    }
}

/// A single question is answered with the label of the option whose number was entered, under the ID of
/// the question, as the only answer to it.
pub proof fn the_chosen_option_is_sent(
    request: JsonView,
    question: JsonView,
    id: Seq<char>,
    options: Seq<JsonView>,
    n: nat,
    label: Seq<char>,
    input: Seq<char>,
    read: Reading,
)
    requires
        field(request, "method"@) == JsonView::Text("item/tool/requestUserInput"@),
        field(field(request, "params"@), "questions"@) == JsonView::Array(seq![question]),
        field(question, "id"@) == JsonView::Text(id),
        id.len() > 0,
        field(question, "options"@) == JsonView::Array(options),
        1 <= n <= options.len(),
        field(options[n - 1], "label"@) == JsonView::Text(label),
        trimmed(input) == decimal(n),
    ensures
        ({
            let sent = answered(request, input, read);
            let answers = field(sent->Ok_0, "answers"@);
            &&& sent is Ok
            &&& answers is Object && answers->Object_0.dom() =~= set![id]
            &&& field(field(answers, id), "answers"@) == JsonView::Array(
                seq![JsonView::Text(label)],
            )
        }),
{
    lemma_methods_have_lengths();
    lemma_brace(input);
    decimals_are_read_back(n);
    assert(is_digit(trimmed(input)[0]));
    an_option_is_chosen_by_its_number(question, options, n, label, input);
    lemma_one_question(question, id, input, label);
}

/// A single question is answered with the text that was entered, as it was entered, where that is no
/// number of an option: under the ID of the question, as the only answer to it.
pub proof fn the_entered_text_is_sent(
    request: JsonView,
    question: JsonView,
    id: Seq<char>,
    input: Seq<char>,
    read: Reading,
    i: int,
)
    requires
        field(request, "method"@) == JsonView::Text("item/tool/requestUserInput"@),
        field(field(request, "params"@), "questions"@) == JsonView::Array(seq![question]),
        field(question, "id"@) == JsonView::Text(id),
        id.len() > 0,
        0 <= i < trimmed(input).len(),
        trimmed(input)[0] != '{',
        !('0' <= trimmed(input)[i] <= '9') || !(field(question, "options"@) is Array),
    ensures
        ({
            let sent = answered(request, input, read);
            let answers = field(sent->Ok_0, "answers"@);
            &&& sent is Ok
            &&& answers is Object && answers->Object_0.dom() =~= set![id]
            &&& field(field(answers, id), "answers"@) == JsonView::Array(
                seq![JsonView::Text(input)],
            )
        }),
{
    lemma_methods_have_lengths();
    lemma_brace(input);
    other_text_is_an_answer_as_it_is(question, input, i);
    lemma_one_question(question, id, input, input);
}

proof fn lemma_one_question(
    question: JsonView,
    id: Seq<char>,
    input: Seq<char>,
    answer: Seq<char>,
)
    requires
        field(question, "id"@) == JsonView::Text(id),
        id.len() > 0,
        chosen(question, JsonView::Text(input)) == Ok::<Seq<char>, Seq<char>>(answer),
    ensures
        with_questions(seq![question], None, input) == Ok::<Map<Seq<char>, JsonView>, Seq<char>>(
            no_members().insert(
                id,
                single("answers"@, JsonView::Array(seq![JsonView::Text(answer)])),
            ),
        ),
{
    let questions = seq![question];
    let values = seq![JsonView::Text(input)];
    assert(questions.drop_last() =~= Seq::empty());
    assert(questions.last() == question);
    assert(values.drop_last() =~= Seq::empty());
    assert(values.last() == JsonView::Text(input));
    assert(chosen_all(question, values.drop_last()) == Ok::<Seq<JsonView>, Seq<char>>(
        Seq::empty(),
    ));
    assert(Seq::<JsonView>::empty().push(JsonView::Text(answer)) =~= seq![JsonView::Text(answer)]);
    assert(with_questions(questions.drop_last(), None, input) == Ok::<
        Map<Seq<char>, JsonView>,
        Seq<char>,
    >(no_members()));
}

/// Questions whose IDs all differ are answered where each has, under its ID, at least one value that
/// answers it, and nothing was entered for any other ID.
pub proof fn complete_answers_are_sent(
    request: JsonView,
    questions: Seq<JsonView>,
    values: Map<Seq<char>, JsonView>,
    input: Seq<char>,
)
    requires
        field(request, "method"@) == JsonView::Text("item/tool/requestUserInput"@),
        field(field(request, "params"@), "questions"@) == JsonView::Array(questions),
        questions.len() > 1,
        forall|i: int|
            0 <= i < questions.len() ==> {
                let id = field(#[trigger] questions[i], "id"@);
                &&& id is Text && id->Text_0.len() > 0
                &&& values.dom().contains(id->Text_0)
                &&& values_for(id->Text_0, Some(values), input).len() > 0
                &&& forall|k: int|
                    0 <= k < values_for(id->Text_0, Some(values), input).len() ==> chosen(
                        questions[i],
                        #[trigger] values_for(id->Text_0, Some(values), input)[k],
                    ) is Ok
            },
        forall|i: int, j: int|
            0 <= i < j < questions.len() ==> field(#[trigger] questions[i], "id"@) != field(
                #[trigger] questions[j],
                "id"@,
            ),
        forall|id: Seq<char>| #[trigger]
            values.dom().contains(id) ==> exists|i: int|
                0 <= i < questions.len() && field(#[trigger] questions[i], "id"@) == JsonView::Text(
                    id,
                ),
    ensures
        answered(request, input, Ok(JsonView::Object(values))) is Ok,
{
    lemma_methods_have_lengths();
    lemma_complete(questions, values, input);
    let answers = with_questions(questions, Some(values), input)->Ok_0;
    lemma_questions_answered(questions, Some(values), input);
    assert forall|id: Seq<char>| values.dom().contains(id) implies answers.dom().contains(id) by {
        let i = choose|i: int|
            0 <= i < questions.len() && field(#[trigger] questions[i], "id"@) == JsonView::Text(id);
        assert(answers_question(questions[i], Some(values), input, answers));
    }
    assert(values.dom().subset_of(answers.dom()));
}

proof fn lemma_complete(
    questions: Seq<JsonView>,
    values: Map<Seq<char>, JsonView>,
    input: Seq<char>,
)
    requires
        forall|i: int|
            0 <= i < questions.len() ==> {
                let id = field(#[trigger] questions[i], "id"@);
                &&& id is Text && id->Text_0.len() > 0
                &&& values.dom().contains(id->Text_0)
                &&& values_for(id->Text_0, Some(values), input).len() > 0
                &&& forall|k: int|
                    0 <= k < values_for(id->Text_0, Some(values), input).len() ==> chosen(
                        questions[i],
                        #[trigger] values_for(id->Text_0, Some(values), input)[k],
                    ) is Ok
            },
        forall|i: int, j: int|
            0 <= i < j < questions.len() ==> field(#[trigger] questions[i], "id"@) != field(
                #[trigger] questions[j],
                "id"@,
            ),
    ensures
        with_questions(questions, Some(values), input) is Ok,
    decreases questions.len(),
{
    if questions.len() > 0 {
        let rest = questions.drop_last();
        let last = questions.last();
        assert forall|i: int| 0 <= i < rest.len() implies ({
            let id = field(#[trigger] rest[i], "id"@);
            &&& id is Text && id->Text_0.len() > 0
            &&& values.dom().contains(id->Text_0)
            &&& values_for(id->Text_0, Some(values), input).len() > 0
            &&& forall|k: int|
                0 <= k < values_for(id->Text_0, Some(values), input).len() ==> chosen(
                    rest[i],
                    #[trigger] values_for(id->Text_0, Some(values), input)[k],
                ) is Ok
        }) by {
            assert(rest[i] == questions[i]);
        }
        assert forall|i: int, j: int| 0 <= i < j < rest.len() implies field(
            #[trigger] rest[i],
            "id"@,
        ) != field(#[trigger] rest[j], "id"@) by {
            assert(rest[i] == questions[i] && rest[j] == questions[j]);
        }
        lemma_complete(rest, values, input);
        lemma_questions_answered(rest, Some(values), input);
        assert(last == questions[questions.len() - 1]);
        let id = field(last, "id"@)->Text_0;
        let before = with_questions(rest, Some(values), input)->Ok_0;
        if before.dom().contains(id) {
            let i = choose|i: int|
                0 <= i < rest.len() && field(#[trigger] rest[i], "id"@) == JsonView::Text(id);
            assert(rest[i] == questions[i]);
            assert(field(questions[i], "id"@) != field(questions[questions.len() - 1], "id"@));
        }
        several_answers_keep_their_order(last, values_for(id, Some(values), input));
    }
}

/// No control character but line feeds, and none that changes the direction of text, reaches the display:
/// each stands there by its number. Every other character stands there as it is.
pub proof fn every_character_is_displayed_or_named(s: Seq<char>, c: char)
    ensures
        ({
            let code = c as int;
            let named = (code < 0x20 && c != '\n') || 0x7f <= code <= 0x9f || code == 0x61c || code
                == 0x200e || code == 0x200f || 0x202a <= code <= 0x202e || 0x2066 <= code <= 0x2069;
            &&& escaped(Seq::empty()).len() == 0
            &&& !named ==> escaped(s.push(c)) == escaped(s).push(c)
            &&& named ==> escaped(s.push(c)) == escaped(s) + (if c == '\t' {
                seq!['\\', 't']
            } else if c == '\r' {
                seq!['\\', 'r']
            } else {
                seq!['\\', 'u', '{'] + hex(c as nat) + seq!['}']
            })
        }),
{
    assert(s.push(c).drop_last() =~= s);
    escapes_name_their_character(c);
    characters_are_of_their_kinds(c);
}

// ---------------------------------------------------------------------------
// What the user is shown of a request
// ---------------------------------------------------------------------------

proof fn lemma_mentions_in(a: Seq<char>, part: Seq<char>, b: Seq<char>)
    ensures
        mentions(a + part + b, part),
{
    let whole = a + part + b;
    let at = a.len() as int;
    assert(whole.subrange(at, at + part.len()) =~= part);
}

proof fn lemma_mentions_more(a: Seq<char>, text: Seq<char>, b: Seq<char>, part: Seq<char>)
    requires
        mentions(text, part),
    ensures
        mentions(a + text + b, part),
{
    let i = choose|i: int|
        0 <= i && i + part.len() <= text.len() && #[trigger] text.subrange(i, i + part.len())
            == part;
    let whole = a + text + b;
    let at = a.len() + i;
    assert(whole.subrange(at, at + part.len()) =~= text.subrange(i, i + part.len()));
}

/// What stands under its label in a description: a text as it is, anything else as JSON.
pub open spec fn under_label(request: JsonView, key: Seq<char>, label: Seq<char>) -> bool {
    match member(field(request, "params"@), key) {
        None => true,
        Some(JsonView::Null) => true,
        Some(JsonView::Text(text)) => mentions(
            description(request),
            "\n"@ + label + ": "@ + text + "\n"@,
        ),
        Some(value) => mentions(
            description(request),
            "\n"@ + label + ": "@ + pretty_text(value) + "\n"@,
        ),
    }
}

/// Everything that the user needs to know of a request is in its description, under its label: the
/// command, the directory, the reason, the network, the files, the permissions, the decisions, the server,
/// the message and the URL.
pub proof fn requests_are_described_in_full(request: JsonView)
    ensures
        under_label(request, "command"@, "Command"@),
        under_label(request, "cwd"@, "Working directory"@),
        under_label(request, "reason"@, "Reason"@),
        under_label(request, "networkApprovalContext"@, "Network context"@),
        under_label(request, "changes"@, "File changes"@),
        under_label(request, "grantRoot"@, "Requested write root"@),
        under_label(request, "permissions"@, "Requested permissions"@),
        under_label(request, "availableDecisions"@, "Available decisions"@),
        under_label(request, "serverName"@, "MCP server"@),
        under_label(request, "message"@, "Message"@),
        under_label(request, "url"@, "URL"@),
{
    let params = field(request, "params"@);
    let parts = seq![
        labelled(params, "command"@, "Command"@),
        labelled(params, "cwd"@, "Working directory"@),
        labelled(params, "reason"@, "Reason"@),
        labelled(params, "networkApprovalContext"@, "Network context"@),
        labelled(params, "changes"@, "File changes"@),
        labelled(params, "grantRoot"@, "Requested write root"@),
        labelled(params, "permissions"@, "Requested permissions"@),
        labelled(params, "availableDecisions"@, "Available decisions"@),
        labelled(params, "serverName"@, "MCP server"@),
        labelled(params, "message"@, "Message"@),
        labelled(params, "url"@, "URL"@),
    ];
    lemma_context(params, parts);
    lemma_context_mentions(request, parts, 0);
    lemma_context_mentions(request, parts, 1);
    lemma_context_mentions(request, parts, 2);
    lemma_context_mentions(request, parts, 3);
    lemma_context_mentions(request, parts, 4);
    lemma_context_mentions(request, parts, 5);
    lemma_context_mentions(request, parts, 6);
    lemma_context_mentions(request, parts, 7);
    lemma_context_mentions(request, parts, 8);
    lemma_context_mentions(request, parts, 9);
    lemma_context_mentions(request, parts, 10);
}

/// Texts one behind the other.
spec fn chained(parts: Seq<Seq<char>>) -> Seq<char>
    decreases parts.len(),
{
    if parts.len() == 0 {
        Seq::empty()
    } else {
        chained(parts.drop_last()) + parts.last()
    }
}

proof fn lemma_chained(parts: Seq<Seq<char>>, part: Seq<char>)
    ensures
        chained(parts.push(part)) == chained(parts) + part,
{
    assert(parts.push(part).drop_last() =~= parts);
}

proof fn lemma_context(params: JsonView, parts: Seq<Seq<char>>)
    requires
        parts == seq![
            labelled(params, "command"@, "Command"@),
            labelled(params, "cwd"@, "Working directory"@),
            labelled(params, "reason"@, "Reason"@),
            labelled(params, "networkApprovalContext"@, "Network context"@),
            labelled(params, "changes"@, "File changes"@),
            labelled(params, "grantRoot"@, "Requested write root"@),
            labelled(params, "permissions"@, "Requested permissions"@),
            labelled(params, "availableDecisions"@, "Available decisions"@),
            labelled(params, "serverName"@, "MCP server"@),
            labelled(params, "message"@, "Message"@),
            labelled(params, "url"@, "URL"@),
        ],
    ensures
        context(params) == chained(parts),
{
    let p0 = Seq::<Seq<char>>::empty();
    let p1 = p0.push(parts[0]);
    lemma_chained(p0, parts[0]);
    let p2 = p1.push(parts[1]);
    lemma_chained(p1, parts[1]);
    let p3 = p2.push(parts[2]);
    lemma_chained(p2, parts[2]);
    let p4 = p3.push(parts[3]);
    lemma_chained(p3, parts[3]);
    let p5 = p4.push(parts[4]);
    lemma_chained(p4, parts[4]);
    let p6 = p5.push(parts[5]);
    lemma_chained(p5, parts[5]);
    let p7 = p6.push(parts[6]);
    lemma_chained(p6, parts[6]);
    let p8 = p7.push(parts[7]);
    lemma_chained(p7, parts[7]);
    let p9 = p8.push(parts[8]);
    lemma_chained(p8, parts[8]);
    let p10 = p9.push(parts[9]);
    lemma_chained(p9, parts[9]);
    let p11 = p10.push(parts[10]);
    lemma_chained(p10, parts[10]);
    assert(chained(p1) =~= parts[0]);
    assert(p11 =~= parts);
}

proof fn lemma_chain_mentions(parts: Seq<Seq<char>>, i: int)
    requires
        0 <= i < parts.len(),
    ensures
        mentions(chained(parts), parts[i]),
    decreases parts.len(),
{
    let none = Seq::<char>::empty();
    let rest = chained(parts.drop_last());
    let last = parts.last();
    if i == parts.len() - 1 {
        assert(chained(parts) =~= rest + last + none);
        lemma_mentions_in(rest, last, none);
    } else {
        lemma_chain_mentions(parts.drop_last(), i);
        assert(parts.drop_last()[i] == parts[i]);
        assert(chained(parts) =~= none + rest + last);
        lemma_mentions_more(none, rest, last, parts[i]);
    }
}

proof fn lemma_context_mentions(request: JsonView, parts: Seq<Seq<char>>, i: int)
    requires
        0 <= i < parts.len(),
        context(field(request, "params"@)) == chained(parts),
    ensures
        mentions(description(request), parts[i]),
{
    let params = field(request, "params"@);
    let method = method_of(request);
    let head = method + "\n"@ + instructions(method) + "\n"@;
    let tail = (match items_of(field(params, "questions"@)) {
        Some(questions) => questions_lines(questions),
        None => Seq::empty(),
    }) + "\nFull request:\n"@ + pretty_text(request);
    assert(description(request) =~= head + context(params) + tail);
    lemma_chain_mentions(parts, i);
    lemma_mentions_more(head, context(params), tail, parts[i]);
}

/// A description begins with the method of the request and with what to enter for it.
pub proof fn descriptions_begin_with_what_to_enter(request: JsonView, method: Seq<char>)
    requires
        field(request, "method"@) == JsonView::Text(method),
    ensures
        ({
            let told = if method == "item/commandExecution/requestApproval"@ || method
                == "item/fileChange/requestApproval"@ {
                "Enter yes to approve once, no to decline, or cancel to interrupt the turn.\nOnly available decisions are accepted; session and policy grants are unsupported."@
            } else if method == "item/permissions/requestApproval"@ {
                "Enter yes to grant exactly the requested permissions for this turn, or no to grant none."@
            } else if method == "item/tool/requestUserInput"@ {
                "For one question, enter text or an option number (starting at 1).\nFor multiple questions, enter JSON keyed by every question ID, for example:\n{\"question_id\": \"answer\", \"another_id\": [1, \"other answer\"]}"@
            } else if method == "mcpServer/elicitation/request"@ {
                "Enter no to decline or cancel to cancel.\nFor a form, submit a JSON object containing your answers.\nFor a URL, visit it and complete the requested action, then enter yes to confirm.\nThis client does not open URLs or verify completion."@
            } else {
                "Unsupported request. Submit input to report an error to the server; use a client that supports this method."@
            };
            (method + "\n"@ + told + "\n"@).is_prefix_of(description(request))
        }),
{
    lemma_methods_have_lengths();
    let shown = description(request);
    let start = method + "\n"@ + instructions(method) + "\n"@;
    assert(shown.subrange(0, start.len() as int) =~= start);
}

/// Every question of a request is in its description, by its ID and with its text, and so is every option
/// of it, by the number with which it is chosen, with its label and its description.
pub proof fn questions_are_described_with_their_options(
    request: JsonView,
    questions: Seq<JsonView>,
    i: int,
)
    requires
        field(field(request, "params"@), "questions"@) == JsonView::Array(questions),
        0 <= i < questions.len(),
    ensures
        ({
            let question = questions[i];
            let id = match field(question, "id"@) {
                JsonView::Text(id) => id,
                _ => "<missing id>"@,
            };
            let header = match field(question, "header"@) {
                JsonView::Text(header) => header,
                _ => "Question"@,
            };
            let text = match field(question, "question"@) {
                JsonView::Text(text) => text,
                _ => Seq::empty(),
            };
            &&& mentions(
                description(request),
                "\n["@ + id + "] "@ + header + ": "@ + text + "\n"@,
            )
            &&& field(question, "options"@) is Array ==> forall|k: int|
                0 <= k < field(question, "options"@)->Array_0.len() ==> mentions(
                    description(request),
                    numbered(#[trigger] field(question, "options"@)->Array_0[k], k + 1),
                )
        }),
{
    let params = field(request, "params"@);
    let method = method_of(request);
    let question = questions[i];
    let lines = questions_lines(questions);
    let head = method + "\n"@ + instructions(method) + "\n"@ + context(params);
    let tail = "\nFull request:\n"@ + pretty_text(request);
    assert(description(request) =~= head + lines + tail);
    lemma_lines_mention(questions, i, question_lines(question));
    let first = "\n["@ + text_or(field(question, "id"@), "<missing id>"@) + "] "@ + text_or(
        field(question, "header"@),
        "Question"@,
    ) + ": "@ + text_or(field(question, "question"@), Seq::empty()) + "\n"@;
    let none = Seq::<char>::empty();
    let rest = match items_of(field(question, "options"@)) {
        Some(options) => option_lines(options),
        None => none,
    };
    assert(question_lines(question) =~= none + first + rest);
    lemma_mentions_in(none, first, rest);
    lemma_lines_mention(questions, i, first);
    lemma_mentions_more(head, lines, tail, first);
    if let JsonView::Array(options) = field(question, "options"@) {
        assert(question_lines(question) =~= first + option_lines(options) + none);
        assert forall|k: int| 0 <= k < options.len() implies mentions(
            description(request),
            numbered(#[trigger] options[k], k + 1),
        ) by {
            lemma_options_mention(options, k);
            let line = numbered(options[k], k + 1);
            lemma_mentions_more(first, option_lines(options), none, line);
            lemma_lines_mention(questions, i, line);
            lemma_mentions_more(head, lines, tail, line);
        }
    }
}

/// An option as it is listed under its number.
pub open spec fn numbered(option: JsonView, n: int) -> Seq<char> {
    "  "@ + decimal(n as nat) + ". "@ + (match field(option, "label"@) {
        JsonView::Text(label) => label,
        _ => "<missing label>"@,
    }) + " — "@ + (match field(option, "description"@) {
        JsonView::Text(text) => text,
        _ => Seq::empty(),
    }) + "\n"@
}

proof fn lemma_options_mention(options: Seq<JsonView>, k: int)
    requires
        0 <= k < options.len(),
    ensures
        mentions(option_lines(options), numbered(options[k], k + 1)),
    decreases options.len(),
{
    let none = Seq::<char>::empty();
    let rest = option_lines(options.drop_last());
    let line = option_line(options.last(), options.len());
    if k == options.len() - 1 {
        assert(line =~= numbered(options[k], k + 1));
        assert(option_lines(options) =~= rest + line + none);
        lemma_mentions_in(rest, line, none);
    } else {
        lemma_options_mention(options.drop_last(), k);
        assert(options.drop_last()[k] == options[k]);
        assert(option_lines(options) =~= none + rest + line);
        lemma_mentions_more(none, rest, line, numbered(options[k], k + 1));
    }
}

proof fn lemma_lines_mention(questions: Seq<JsonView>, i: int, part: Seq<char>)
    requires
        0 <= i < questions.len(),
    ensures
        mentions(question_lines(questions[i]), part) ==> mentions(questions_lines(questions), part),
        mentions(questions_lines(questions), question_lines(questions[i])),
    decreases questions.len(),
{
    let none = Seq::<char>::empty();
    let rest = questions_lines(questions.drop_last());
    let last = question_lines(questions.last());
    if i == questions.len() - 1 {
        assert(questions_lines(questions) =~= rest + last + none);
        lemma_mentions_in(rest, last, none);
        if mentions(last, part) {
            lemma_mentions_more(rest, last, none, part);
        }
    } else {
        lemma_lines_mention(questions.drop_last(), i, part);
        assert(questions.drop_last()[i] == questions[i]);
        assert(questions_lines(questions) =~= none + rest + last);
        lemma_mentions_more(none, rest, last, question_lines(questions[i]));
        if mentions(question_lines(questions[i]), part) {
            lemma_mentions_more(none, rest, last, part);
        }
    }
}

// ---------------------------------------------------------------------------
// What is said of mistakes
// ---------------------------------------------------------------------------

/// A decision that is none, that the server has not offered, or that cannot be held against what it has offered
/// is not sent: the user is told what to enter instead. The same goes for permissions.
pub proof fn mistaken_decisions_are_told(request: JsonView, input: Seq<char>, read: Reading)
    ensures
        ({
            let said = lower(trimmed(input));
            let params = field(request, "params"@);
            let offered = field(params, "availableDecisions"@);
            let sent = answered(request, input, read);
            let yes = said == "yes"@ || said == "y"@;
            let no = said == "no"@ || said == "n"@;
            let stop = said == "cancel"@;
            let decision = if yes {
                "accept"@
            } else if no {
                "decline"@
            } else {
                "cancel"@
            };
            &&& field(request, "method"@) == JsonView::Text("item/commandExecution/requestApproval"@)
                || field(request, "method"@) == JsonView::Text("item/fileChange/requestApproval"@)
                ==> {
                &&& !yes && !no && !stop ==> sent == Reading::Err(
                    "Enter yes, no, or cancel. Empty input never approves a request."@,
                )
                &&& (yes || no || stop) && !(offered is Null) && !(offered is Array) ==> sent
                    == Reading::Err(
                    "Invalid availableDecisions: expected an array; no decision sent."@,
                )
                &&& (yes || no || stop) && offered is Array && !offered->Array_0.contains(
                    JsonView::Text(decision),
                ) ==> sent == Reading::Err(
                    "Decision \""@ + decision
                        + "\" is not available. Choose a supported offered decision: "@ + escaped(
                        pretty_text(offered),
                    ) + ". Session and policy grants require another client."@,
                )
            }
            &&& field(request, "method"@) == JsonView::Text("item/permissions/requestApproval"@)
                ==> {
                &&& yes && !(field(params, "permissions"@) is Object) ==> sent == Reading::Err(
                    "Missing or invalid requested permissions; no grant sent."@,
                )
                &&& !yes && !no ==> sent == Reading::Err(
                    "Enter yes to grant the requested permissions for this turn, or no to grant none."@,
                )
            }
        }),
{
    lemma_methods_have_lengths();
    lemma_words_differ();
}

/// An elicitation that is not answered is told by its mode, and a request that nobody can answer by its method.
pub proof fn mistaken_elicitations_are_told(request: JsonView, input: Seq<char>, read: Reading)
    ensures
        ({
            let said = lower(trimmed(input));
            let params = field(request, "params"@);
            let mode = field(params, "mode"@);
            let method = field(request, "method"@);
            let sent = answered(request, input, read);
            let open = said != "no"@ && said != "n"@ && said != "cancel"@;
            let form = mode == JsonView::Text("form"@) || mode == JsonView::Text("openai/form"@)
                || mode == JsonView::Text("openaiForm"@);
            &&& method == JsonView::Text("mcpServer/elicitation/request"@) && open ==> {
                &&& mode == JsonView::Text("url"@) && said != "yes"@ && said != "y"@ ==> sent
                    == Reading::Err(
                    "Complete the action at the displayed URL, then enter yes to confirm, no to decline, or cancel."@,
                )
                &&& mode == JsonView::Text("url"@) && (said == "yes"@ || said == "y"@) && !(field(
                    params,
                    "url"@,
                ) is Text && trimmed(field(params, "url"@)->Text_0).len() > 0) ==> sent
                    == Reading::Err("URL elicitation is missing its URL; cannot confirm it."@)
                &&& form && read is Err ==> sent == Reading::Err(
                    "Submit form answers as a JSON object, or enter no/cancel: "@ + read->Err_0,
                )
                &&& form && read is Ok && !(read->Ok_0 is Object) ==> sent == Reading::Err(
                    "Form answers must be a JSON object matching requestedSchema."@,
                )
                &&& mode != JsonView::Text("url"@) && !form ==> sent == Reading::Err(
                    "Unsupported elicitation mode. Enter no/cancel, or use a client supporting the requested mode."@,
                )
            }
            &&& method is Text && method != JsonView::Text(
                "item/commandExecution/requestApproval"@,
            ) && method != JsonView::Text("item/fileChange/requestApproval"@) && method
                != JsonView::Text("item/permissions/requestApproval"@) && method != JsonView::Text(
                "item/tool/requestUserInput"@,
            ) && method != JsonView::Text("mcpServer/elicitation/request"@) ==> sent
                == Reading::Err(
                "Unsupported server request "@ + escaped(method->Text_0)
                    + ". Send a JSON-RPC method-not-found error with reply_error; use a client that supports this method."@,
            )
        }),
{
    lemma_methods_have_lengths();
    lemma_words_differ();
    reveal_strlit("url");
    reveal_strlit("form");
    reveal_strlit("openai/form");
    reveal_strlit("openaiForm");
    assert("url"@.len() == 3 && "form"@.len() == 4 && "openai/form"@.len() == 11
        && "openaiForm"@.len() == 10);
}

/// What is wrong with an answer to a question is told: that there is nothing in it, that it is of no kind that
/// an answer has, or which numbers the options have.
pub proof fn mistaken_choices_are_told(question: JsonView, value: JsonView, options: Seq<JsonView>)
    ensures
        !(value is Text) && !(value is Num && value->Num_0 is Pos) ==> chosen(question, value)
            == Err::<Seq<char>, Seq<char>>(
            "Answers must be text, option numbers, or arrays of those values."@,
        ),
        value is Text && trimmed(value->Text_0).len() == 0 ==> chosen(question, value) == Err::<
            Seq<char>,
            Seq<char>,
        >("Enter an answer; empty input does not select an option."@),
        value is Text && trimmed(value->Text_0).len() > 0 && chosen(question, value) is Err && field(
            question,
            "options"@,
        ) == JsonView::Array(options) ==> chosen(question, value)->Err_0
            == "Choose an option number from 1 to "@ + decimal(options.len()) + ", or enter text."@,
{
}

/// What is wrong with the answers to questions is told: that there are no questions, that several were not
/// entered as an object, that a question has no ID or one that another has, or that nothing was entered
/// for it.
pub proof fn mistaken_replies_are_told(
    request: JsonView,
    input: Seq<char>,
    read: Reading,
    question: JsonView,
    id: Seq<char>,
    answers: Map<Seq<char>, JsonView>,
    keyed: Option<Map<Seq<char>, JsonView>>,
)
    ensures
        field(request, "method"@) == JsonView::Text("item/tool/requestUserInput"@) ==> {
            let questions = field(field(request, "params"@), "questions"@);
            let several = questions is Array && questions->Array_0.len() > 1;
            let sent = answered(request, input, read);
            &&& !(questions is Array) || questions->Array_0.len() == 0 ==> sent == Reading::Err(
                "Request has no questions to answer."@,
            )
            &&& several && read is Err ==> sent == Reading::Err(
                "Enter a JSON object keyed by question ID: "@ + read->Err_0,
            )
            &&& several && read is Ok && !(read->Ok_0 is Object) ==> sent == Reading::Err(
                "Expected a JSON object keyed by question ID."@,
            )
        },
        !(field(question, "id"@) is Text) || field(question, "id"@) == JsonView::Text(Seq::empty())
            ==> with_question(answers, question, keyed, input) == Err::<
            Map<Seq<char>, JsonView>,
            Seq<char>,
        >("Question is missing a nonempty ID; cannot route its answer."@),
        field(question, "id"@) == JsonView::Text(id) && id.len() > 0 ==> {
            let more = with_question(answers, question, keyed, input);
            &&& answers.dom().contains(id) ==> more == Err::<Map<Seq<char>, JsonView>, Seq<char>>(
                "Duplicate question ID "@ + escaped(id) + "; cannot route answers safely."@,
            )
            &&& !answers.dom().contains(id) && keyed is Some && !keyed->Some_0.dom().contains(id)
                ==> more == Err::<Map<Seq<char>, JsonView>, Seq<char>>(
                "Missing answer for question "@ + escaped(id) + ". Include every question ID."@,
            )
            &&& !answers.dom().contains(id) && keyed is Some && keyed->Some_0.dom().contains(id)
                && keyed->Some_0[id] == JsonView::Array(Seq::empty()) ==> more == Err::<
                Map<Seq<char>, JsonView>,
                Seq<char>,
            >("Enter at least one answer for question "@ + escaped(id) + "."@)
        },
{
    lemma_methods_have_lengths();
}

/// Where something was entered for an ID that no question has, nothing is sent, and the user is told the first
/// such ID.
pub proof fn the_first_unknown_question_is_told(
    questions: Seq<JsonView>,
    values: Map<Seq<char>, JsonView>,
    input: Seq<char>,
    extra: Seq<char>,
)
    requires
        with_questions(questions, Some(values), input) is Ok,
        values.dom().finite(),
        values.dom().contains(extra),
        forall|i: int|
            0 <= i < questions.len() ==> field(#[trigger] questions[i], "id"@) != JsonView::Text(
                extra,
            ),
    ensures
        exists|id: Seq<char>|
            {
                &&& #[trigger] values.dom().contains(id)
                &&& forall|i: int|
                    0 <= i < questions.len() ==> field(#[trigger] questions[i], "id"@)
                        != JsonView::Text(id)
                &&& id == extra || before(id, extra)
                &&& route(questions, Some(values), input) == Reading::Err(
                    "Unknown question ID "@ + escaped(id)
                        + ". Use only the displayed question IDs."@,
                )
            },
{
    lemma_questions_answered(questions, Some(values), input);
    let answers = with_questions(questions, Some(values), input)->Ok_0;
    let missing = values.dom().difference(answers.dom());
    assert(!answers.dom().contains(extra));
    assert(missing.contains(extra));
    lemma_first_of(missing);
    let first = choose|k: Seq<char>|
        missing.contains(k) && forall|other: Seq<char>| #[trigger]
            missing.contains(other) && other != k ==> before(k, other);
    assert(missing.contains(first));
    assert forall|k: Seq<char>|
        values.dom().contains(k) && !answers.dom().contains(k) && k != first implies #[trigger] before(
        first,
        k,
    ) by {
        assert(missing.contains(k));
    }
    assert(first_missing(values, answers, first));
    let id = unknown_id(values, answers);
    assert(first_missing(values, answers, id));
    assert(!values.dom().subset_of(answers.dom()));
    assert forall|i: int| 0 <= i < questions.len() implies field(#[trigger] questions[i], "id"@)
        != JsonView::Text(id) by {
        assert(answers_question(questions[i], Some(values), input, answers));
    }
    assert(values.dom().contains(id));
    if id != extra {
        assert(values.dom().contains(extra) && !answers.dom().contains(extra));
        assert(before(id, extra));
    }
}

/// Of finitely many texts one is before all others.
proof fn lemma_first_of(s: Set<Seq<char>>)
    requires
        s.finite(),
        s.len() > 0,
    ensures
        exists|k: Seq<char>|
            s.contains(k) && forall|other: Seq<char>| #[trigger]
                s.contains(other) && other != k ==> before(k, other),
    decreases s.len(),
{
    let x = s.choose();
    let rest = s.remove(x);
    if rest.len() == 0 {
        assert forall|other: Seq<char>| #[trigger] s.contains(other) && other != x implies before(
            x,
            other,
        ) by {
            assert(rest.contains(other));
        }
        assert(s.contains(x));
    } else {
        lemma_first_of(rest);
        let m = choose|k: Seq<char>|
            rest.contains(k) && forall|other: Seq<char>| #[trigger]
                rest.contains(other) && other != k ==> before(k, other);
        before_is_total(x, m);
        let k = if before(x, m) {
            x
        } else {
            m
        };
        assert forall|other: Seq<char>| #[trigger] s.contains(other) && other != k implies before(
            k,
            other,
        ) by {
            if other != x {
                assert(rest.contains(other));
                if k == x && other != m {
                    before_is_transitive(x, m, other);
                }
            }
        }
        assert(s.contains(k));
    }
}

} // verus!
