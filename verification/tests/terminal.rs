use codex_silent::backend::Client;
use codex_silent::codec::parse;
use codex_silent::keys::{Key, KeyPress, Pressed};
use codex_silent::options::Options;
use codex_silent::screen::Area;
use codex_silent::session::{App, Purpose, Trouble};
use codex_silent::terminal::{Incoming, Taken, UserEvent, BATCH};

fn options() -> Options {
    Options {
        codex: "codex".to_string(),
        cwd: "/work".to_string(),
        config: Vec::new(),
        resume: None,
        model: None,
        show: false,
        check: false,
        replay: None,
        log_dir: None,
    }
}

fn key(key: Key) -> KeyPress {
    KeyPress { key, ctrl: false, alt: false }
}

fn ctrl(key: Key) -> KeyPress {
    KeyPress { key, ctrl: true, alt: false }
}

fn press(app: &mut App, press: KeyPress) {
    let mut client = Client::new();
    assert!(matches!(
        app.press(press, true, &mut client, &options(), "/logs"),
        Pressed::Stay
    ));
}

fn type_text(app: &mut App, text: &str) {
    for c in text.chars() {
        press(app, key(Key::Char(c)));
    }
}

#[test]
fn typing_and_erasing_go_by_characters() {
    let mut app = App::new(false, false);
    type_text(&mut app, "aλ中");
    assert_eq!(app.input, "aλ中");
    assert_eq!(app.cursor, 6);
    press(&mut app, key(Key::Left));
    assert_eq!(app.cursor, 3);
    press(&mut app, key(Key::Left));
    assert_eq!(app.cursor, 1);
    press(&mut app, key(Key::Delete));
    assert_eq!(app.input, "a中");
    assert_eq!(app.cursor, 1);
    press(&mut app, key(Key::Backspace));
    assert_eq!(app.input, "中");
    assert_eq!(app.cursor, 0);
    press(&mut app, key(Key::Backspace));
    press(&mut app, key(Key::Left));
    assert_eq!(app.cursor, 0);
    press(&mut app, key(Key::Right));
    assert_eq!(app.cursor, 3);
    press(&mut app, key(Key::Right));
    press(&mut app, key(Key::Delete));
    assert_eq!(app.cursor, 3);
    assert_eq!(app.input, "中");
}

#[test]
fn home_and_end_move_the_cursor_or_the_conversation() {
    let mut app = App::new(false, false);
    for i in 0..40 {
        app.conversation.notice(&format!("n{i}"));
    }
    let area = Area { x: 0, y: 0, width: 40, height: 20 };
    app.draw(area);
    let bottom = app.view.top();
    press(&mut app, key(Key::Home));
    assert_eq!(app.view.top(), 0);
    press(&mut app, key(Key::End));
    assert_eq!(app.view.top(), bottom);
    type_text(&mut app, "λx");
    press(&mut app, key(Key::Home));
    assert_eq!(app.cursor, 0);
    assert_eq!(app.view.top(), bottom);
    press(&mut app, key(Key::End));
    assert_eq!(app.cursor, 3);
    press(&mut app, ctrl(Key::Home));
    assert_eq!(app.view.top(), 0);
    assert_eq!(app.cursor, 3);
    press(&mut app, ctrl(Key::End));
    press(&mut app, key(Key::PageUp));
    assert_eq!(app.view.top(), bottom - app.view.height);
    press(&mut app, key(Key::PageDown));
    assert_eq!(app.view.top(), bottom);
}

#[test]
fn control_keys_toggle_interrupt_and_quit() {
    let mut app = App::new(false, false);
    let mut client = Client::new();
    press(&mut app, ctrl(Key::Char('o')));
    assert!(app.view.expanded);
    press(&mut app, ctrl(Key::Char('x')));
    press(&mut app, key(Key::Other));
    assert!(app.input.is_empty());
    for c in ['q', 'c'] {
        assert!(matches!(
            app.press(ctrl(Key::Char(c)), true, &mut client, &options(), "/logs"),
            Pressed::Leave
        ));
    }
    app.thread = Some("T".to_string());
    app.turn = Some("t".to_string());
    assert!(matches!(
        app.press(ctrl(Key::Char('c')), true, &mut client, &options(), "/logs"),
        Pressed::Send(_, Purpose::Interrupt)
    ));
    assert!(matches!(
        app.press(ctrl(Key::Char('c')), false, &mut client, &options(), "/logs"),
        Pressed::Leave
    ));
    client.shutdown();
    assert!(matches!(
        app.press(ctrl(Key::Char('c')), true, &mut client, &options(), "/logs"),
        Pressed::Failed(_, Purpose::Interrupt)
    ));
}

#[test]
fn enter_sends_and_alt_enter_breaks_the_line() {
    let mut app = App::new(false, false);
    app.thread = Some("T".to_string());
    let mut client = Client::new();
    type_text(&mut app, "ab");
    press(&mut app, key(Key::Left));
    press(&mut app, KeyPress { key: Key::Enter, ctrl: false, alt: true });
    assert_eq!(app.input, "a\nb");
    assert_eq!(app.cursor, 2);
    assert!(matches!(
        app.press(key(Key::Enter), true, &mut client, &options(), "/logs"),
        Pressed::Send(_, Purpose::Request)
    ));
}

#[test]
fn nothing_is_sent_without_a_server() {
    let mut app = App::new(false, false);
    app.thread = Some("T".to_string());
    let mut client = Client::new();
    type_text(&mut app, "Hello");
    assert!(matches!(
        app.press(key(Key::Enter), false, &mut client, &options(), "/logs"),
        Pressed::Stay
    ));
    assert_eq!(app.input, "Hello");
    assert_eq!(
        app.conversation.entries.last().unwrap().text,
        "Codex is disconnected. Nothing was sent. Use /logs or /quit, then restart to open or resume a thread."
    );
    app.input = "/show".to_string();
    app.cursor = 5;
    app.press(key(Key::Enter), false, &mut client, &options(), "/logs");
    assert!(app.view.expanded);
}

#[test]
fn pasted_text_goes_to_the_cursor() {
    let mut app = App::new(false, false);
    let mut client = Client::new();
    type_text(&mut app, "ad");
    press(&mut app, key(Key::Left));
    let event = UserEvent::Paste("bλ\nc".to_string());
    app.user_event(event, true, &mut client, &options(), "/logs");
    assert_eq!(app.input, "abλ\ncd");
    assert_eq!(app.cursor, 6);
    let released = UserEvent::Release(key(Key::Char('z')));
    app.user_event(released, true, &mut client, &options(), "/logs");
    app.user_event(UserEvent::Other, true, &mut client, &options(), "/logs");
    assert_eq!(app.input, "abλ\ncd");
    app.user_event(UserEvent::Press(key(Key::Char('z'))), true, &mut client, &options(), "/logs");
    assert_eq!(app.input, "abλ\nczd");
}

#[test]
fn what_the_server_sends_is_dealt_with() {
    let mut app = App::new(false, false);
    let mut client = Client::new();
    assert_eq!(BATCH, 256);
    assert!(matches!(app.receive(Incoming::Empty, &mut client, "/e"), Taken::Idle));
    let warning = parse(r#"{"method":"warning","params":{"message":"Hm"}}"#).unwrap();
    assert!(matches!(
        app.receive(Incoming::Message(warning), &mut client, "/e"),
        Taken::Done
    ));
    let odd = parse(r#"{"id":1,"method":"odd"}"#).unwrap();
    assert!(matches!(
        app.receive(Incoming::Message(odd), &mut client, "/e"),
        Taken::Send(_)
    ));
    app.begin(7);
    let other = parse(r#"{"id":7,"result":{}}"#).unwrap();
    client.shutdown();
    assert!(matches!(
        app.receive(Incoming::Message(other), &mut client, "/e"),
        Taken::Failed(Trouble::Transport(_))
    ));
    assert!(matches!(
        app.receive(Incoming::Broken("EOF".to_string()), &mut client, "/e"),
        Taken::Lost(false)
    ));
    let mut client = Client::new();
    assert!(matches!(
        app.receive(Incoming::Closed, &mut client, "/e"),
        Taken::Lost(true)
    ));
    assert!(app
        .conversation
        .entries
        .last()
        .unwrap()
        .text
        .starts_with("Codex message channel closed.\nCodex stderr: /e\n"));
    let mut client = Client::new();
    assert!(app.write_failed(Purpose::Request, "full", &mut client, "/e"));
    assert!(app
        .conversation
        .entries
        .last()
        .unwrap()
        .text
        .starts_with("Could not send request: full. Delivery is unknown"));
}

#[test]
fn drawing_a_session_shows_its_status_and_requests() {
    let mut app = App::new(false, false);
    let mut client = Client::new();
    let area = Area { x: 0, y: 0, width: 100, height: 30 };
    let scene = app.draw(area);
    assert!(scene.banner.starts_with(" Connecting · 0 activity items"));
    assert_eq!(scene.input.title, " Message · Enter send · Alt+Enter newline ");
    let request = parse(
        r#"{"id":"a","method":"item/commandExecution/requestApproval","params":{"command":"ls"}}"#,
    )
    .unwrap();
    app.receive(Incoming::Message(request), &mut client, "/e");
    let scene = app.draw(area);
    assert_eq!(scene.input.title, " Response required · Enter to answer ");
    assert!(scene.lines.iter().any(|row| row.text.contains("Full request:")));
}
