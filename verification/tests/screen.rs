use codex_silent::codec::parse;
use codex_silent::conversation::{Conversation, Kind};
use codex_silent::json::Json;
use codex_silent::screen::{clean, draw_input, tint, wrap, Area, Regions, Scene, Tint, View};
use ratatui::backend::TestBackend;
use ratatui::layout::Rect;
use ratatui::text::Line;
use ratatui::widgets::{Block, Borders, Paragraph};
use ratatui::Terminal;

fn json(text: &str) -> Json {
    parse(text).unwrap()
}

fn rect(area: Area) -> Rect {
    Rect { x: area.x, y: area.y, width: area.width, height: area.height }
}

fn show(terminal: &mut Terminal<TestBackend>, scene: &Scene) {
    terminal
        .draw(|frame| {
            let block = Block::default().borders(Borders::ALL).title(scene.title.as_str());
            frame.render_widget(block, rect(scene.area));
            let lines: Vec<Line> = scene.lines.iter().map(|r| Line::raw(r.text.as_str())).collect();
            frame.render_widget(Paragraph::new(lines), rect(scene.inner));
            frame.render_widget(Paragraph::new(scene.banner.as_str()), rect(scene.banner_area));
        })
        .unwrap();
}

fn text(terminal: &Terminal<TestBackend>) -> String {
    terminal.backend().buffer().content.iter().map(|cell| cell.symbol()).collect::<String>()
}

fn area(width: u16, height: u16) -> Area {
    Area { x: 0, y: 0, width, height }
}

#[test]
fn actual_frame_hides_and_reveals_native_tool_output() {
    let mut c = Conversation::default();
    for item in [
        r#"{"id":"q","type":"userMessage","content":[{"type":"text","text":"Run the test"}]}"#,
        r#"{"id":"cmd","type":"commandExecution","command":"echo TOOL_MARKER","aggregatedOutput":"TOOL_MARKER"}"#,
        r#"{"id":"a","type":"agentMessage","text":"All tests passed."}"#,
    ] {
        let params = json("{}").with("item", json(item));
        c.event(&json(r#"{"method":"item/completed"}"#).with("params", params));
    }
    let mut v = View::default();
    let mut terminal = Terminal::new(TestBackend::new(80, 24)).unwrap();
    let scene = v.draw(area(80, 24), &c, "Ready", "", 0, None);
    show(&mut terminal, &scene);
    assert!(text(&terminal).contains("Run the test"));
    assert!(text(&terminal).contains("All tests passed."));
    assert!(!text(&terminal).contains("TOOL_MARKER"));
    v.toggle();
    let scene = v.draw(area(80, 24), &c, "Ready", "", 0, None);
    show(&mut terminal, &scene);
    assert!(text(&terminal).contains("TOOL_MARKER"));
    v.toggle();
    let scene = v.draw(area(80, 24), &c, "Ready", "", 0, None);
    show(&mut terminal, &scene);
    assert!(!text(&terminal).contains("TOOL_MARKER"));
}

#[test]
fn scrolling_stays_at_earlier_answers_while_activity_streams() {
    let mut c = Conversation::default();
    for i in 0..40 {
        c.notice(&format!("answer {i}"));
    }
    let mut v = View::default();
    let mut terminal = Terminal::new(TestBackend::new(80, 16)).unwrap();
    v.home();
    let scene = v.draw(area(80, 16), &c, "Working", "", 0, None);
    show(&mut terminal, &scene);
    let before = text(&terminal);
    for i in 0..1000 {
        let item = json(r#"{"type":"commandExecution","aggregatedOutput":"NOISE"}"#)
            .with("id", Json::text(&i.to_string()));
        let params = json("{}").with("item", item);
        c.event(&json(r#"{"method":"item/completed"}"#).with("params", params));
    }
    let scene = v.draw(area(80, 16), &c, "Working", "", 0, None);
    show(&mut terminal, &scene);
    assert!(before.contains("answer 0"));
    assert!(text(&terminal).contains("answer 0"));
    assert!(!text(&terminal).contains("NOISE"));
}

#[test]
fn hostile_escape_sequences_never_reach_terminal() {
    assert_eq!(clean("a\x1b[2Jb\x1b]52;c;clipboard\x07c\x00"), "abc");
    assert_eq!(wrap("中文abc", 4), ["中文", "abc"]);
}

#[test]
fn operating_system_commands_end_with_a_bell_or_a_string_terminator() {
    assert_eq!(clean("a\x1b]0;title\x1b\\b"), "ab");
    assert_eq!(clean("a\x1b]0;t\x1bxy\x07b"), "ab");
    assert_eq!(clean("a\x1b]never ends"), "a");
    assert_eq!(clean("a\x1b[12;3"), "a");
    assert_eq!(clean("a\x1bMb"), "ab");
    assert_eq!(clean("a\x1b"), "a");
}

#[test]
fn tabs_become_spaces_and_line_feeds_stay() {
    assert_eq!(clean("a\tb\nc\rd\u{85}"), "a    b\ncd");
    assert_eq!(clean(&clean("a\tb\x1b[1mc")), clean("a\tb\x1b[1mc"));
    assert_eq!(clean("plain λ text"), "plain λ text");
}

#[test]
fn wrapping_fills_rows_and_keeps_every_character() {
    assert_eq!(wrap("abcdef", 4), ["abcd", "ef"]);
    assert_eq!(wrap("", 4), [""]);
    assert_eq!(wrap("a\n\nb", 4), ["a", "", "b"]);
    assert_eq!(wrap("abc", 0), ["a", "b", "c"]);
    assert_eq!(wrap("中文", 1), ["中", "文"]);
    assert_eq!(wrap("a中b", 2), ["a", "中", "b"]);
    assert_eq!(wrap("e\u{301}x", 1), ["e\u{301}", "x"]);
}

#[test]
fn labels_have_the_colour_of_their_kind() {
    assert_eq!(tint(Kind::User), Tint::Cyan);
    assert_eq!(tint(Kind::Answer), Tint::Green);
    assert_eq!(tint(Kind::Activity), Tint::DarkGray);
    assert_eq!(tint(Kind::Notice), Tint::Yellow);
}

#[test]
fn the_screen_is_split_into_conversation_banner_and_input() {
    let mut c = Conversation::default();
    c.notice("hello");
    let mut v = View::default();
    let scene = v.draw(area(40, 12), &c, "Ready", "", 0, None);
    assert_eq!(scene.area, Area { x: 0, y: 0, width: 40, height: 8 });
    assert_eq!(scene.inner, Area { x: 1, y: 1, width: 38, height: 6 });
    assert_eq!(scene.banner_area, Area { x: 0, y: 8, width: 40, height: 1 });
    assert_eq!(scene.input.area, Area { x: 0, y: 9, width: 40, height: 3 });
    assert_eq!(scene.title, " Codex Silent · answers only ");
    assert_eq!(
        scene.banner,
        " Ready · 0 activity items · Ctrl+O show · PgUp/PgDn scroll · /help"
    );
    let rows: Vec<&str> = scene.lines.iter().map(|r| r.text.as_str()).collect();
    assert_eq!(rows, ["Notice", "hello", ""]);
    assert_eq!(scene.lines[0].tint, Some(Tint::Yellow));
    assert_eq!(scene.lines[1].tint, None);
    assert_eq!(v.height, 6);
}

#[test]
fn the_input_box_grows_with_its_text_up_to_a_limit() {
    let c = Conversation::default();
    let mut v = View::default();
    for (input, height) in [("", 3), ("a", 3), ("a\nb", 4), ("a\nb\nc\nd\ne", 6)] {
        let scene = v.draw(area(40, 20), &c, "Ready", input, 0, None);
        assert_eq!(scene.input.area.height, height);
        assert_eq!(scene.input.area.y + height, 20);
    }
}

#[test]
fn a_tiny_screen_shows_what_fits() {
    let mut c = Conversation::default();
    c.notice("hello");
    let mut v = View::default();
    for size in 0..4 {
        let scene = v.draw(area(size, size), &c, "Ready", "text", 4, None);
        assert!(scene.lines.len() <= size as usize);
    }
}

#[test]
fn given_parts_of_the_screen_are_filled() {
    let mut c = Conversation::default();
    c.notice("one\ntwo\nthree");
    let regions = Regions {
        body: area(20, 4),
        banner: Area { x: 0, y: 4, width: 20, height: 1 },
        input: Area { x: 0, y: 5, width: 20, height: 3 },
    };
    let mut v = View::default();
    let scene = v.compose(regions, &c, "Ready", "hi", 2, Some(""));
    let rows: Vec<&str> = scene.lines.iter().map(|r| r.text.as_str()).collect();
    assert_eq!(rows, ["three", ""]);
    assert_eq!(scene.input.title, " Response required · Enter to answer ");
    assert_eq!(scene.input.lines, ["hi"]);
    assert_eq!(scene.input.cursor, Some((3, 6)));
    assert_eq!(v.top(), 3);
}

#[test]
fn the_cursor_follows_wide_characters_and_wrapped_rows() {
    let b = draw_input(area(6, 4), "中文a", "中文".len(), false);
    assert_eq!(b.title, " Message · Enter send · Alt+Enter newline ");
    assert_eq!(b.inner, Area { x: 1, y: 1, width: 4, height: 2 });
    assert_eq!(b.lines, ["中文", "a"]);
    assert_eq!(b.cursor, Some((4, 1)));
    let b = draw_input(area(6, 4), "abcdefghij", 10, false);
    assert_eq!(b.lines, ["efgh", "ij"]);
    assert_eq!(b.cursor, Some((3, 2)));
    let b = draw_input(area(2, 2), "abc", 3, false);
    assert_eq!(b.cursor, None);
}

#[test]
fn scrolling_moves_by_rows_and_stops_at_the_ends() {
    let mut c = Conversation::default();
    for i in 0..10 {
        c.notice(&format!("n{i}"));
    }
    let mut v = View::default();
    v.draw(area(40, 12), &c, "Ready", "", 0, None);
    assert_eq!(v.top(), 24);
    v.scroll(-5);
    assert_eq!(v.top(), 19);
    v.scroll(2);
    assert_eq!(v.top(), 21);
    v.scroll(100);
    assert_eq!(v.top(), 24);
    v.scroll(isize::MIN);
    assert_eq!(v.top(), 0);
    v.end();
    assert_eq!(v.top(), 24);
    v.home();
    assert_eq!(v.top(), 0);
    c.notice("later");
    v.draw(area(40, 12), &c, "Ready", "", 0, None);
    assert_eq!(v.top(), 0);
    v.end();
    assert_eq!(v.top(), 27);
}

#[test]
fn every_change_is_drawn() {
    let mut c = Conversation::default();
    let mut v = View::default();
    let shown = |v: &mut View, c: &Conversation| -> Vec<String> {
        v.draw(area(40, 30), c, "Ready", "", 0, None)
            .lines
            .iter()
            .map(|row| row.text.clone())
            .collect()
    };
    assert!(shown(&mut v, &c).is_empty());
    c.notice("one");
    assert_eq!(shown(&mut v, &c), ["Notice", "one", ""]);
    assert_eq!(shown(&mut v, &c), ["Notice", "one", ""]);
    c.event(&json(
        r#"{"method":"item/reasoning/textDelta","params":{"itemId":"r","delta":"hm"}}"#,
    ));
    assert_eq!(shown(&mut v, &c), ["Notice", "one", ""]);
    v.toggle();
    assert_eq!(shown(&mut v, &c), ["Notice", "one", "", "Reasoning", "hm", ""]);
    c.event(&json(
        r#"{"method":"item/reasoning/textDelta","params":{"itemId":"r","delta":"m"}}"#,
    ));
    assert_eq!(shown(&mut v, &c), ["Notice", "one", "", "Reasoning", "hmm", ""]);
    v.toggle();
    assert_eq!(shown(&mut v, &c), ["Notice", "one", ""]);
    let wide = v.draw(area(5, 30), &c, "Ready", "", 0, None);
    let rows: Vec<&str> = wide.lines.iter().map(|row| row.text.as_str()).collect();
    assert_eq!(rows, ["Notice", "one", ""]);
    c.notice("abcdef");
    let narrow = v.draw(area(5, 30), &c, "Ready", "", 0, None);
    let rows: Vec<&str> = narrow.lines.iter().map(|row| row.text.as_str()).collect();
    assert_eq!(rows, ["Notice", "one", "", "Notice", "abc", "def", ""]);
}

#[test]
fn a_scrolled_view_stays_at_its_row() {
    let mut c = Conversation::default();
    for i in 0..20 {
        c.notice(&format!("n{i}"));
    }
    let mut v = View::default();
    v.draw(area(40, 12), &c, "Ready", "", 0, None);
    v.scroll(-20);
    let top = v.top();
    let before: Vec<String> = v
        .draw(area(40, 12), &c, "Ready", "", 0, None)
        .lines
        .iter()
        .map(|row| row.text.clone())
        .collect();
    c.notice("more\nand more");
    let after: Vec<String> = v
        .draw(area(40, 12), &c, "Ready", "", 0, None)
        .lines
        .iter()
        .map(|row| row.text.clone())
        .collect();
    assert_eq!(v.top(), top);
    assert_eq!(before, after);
}

#[test]
fn the_parts_of_small_screens_lie_inside_in_order() {
    let c = Conversation::default();
    for (input, rows) in [("", 3), ("a\nb", 4), ("a\nb\nc", 5), ("a\nb\nc\nd\ne", 6)] {
        for y in [0, 7, 1000] {
            for height in 0..12 {
                let whole = Area { x: 3, y, width: 20, height };
                let mut v = View::default();
                let scene = v.draw(whole, &c, "Ready", input, 0, None);
                let parts = [scene.area, scene.banner_area, scene.input.area];
                for part in parts {
                    assert_eq!((part.x, part.width), (3, 20));
                }
                assert_eq!(parts[0].y, y);
                assert_eq!(parts[1].y, parts[0].y + parts[0].height);
                assert_eq!(parts[2].y, parts[1].y + parts[1].height);
                assert_eq!(parts[2].y + parts[2].height, y + height);
                if height >= rows + 2 {
                    assert_eq!(parts[0].height, height - rows - 1);
                    assert_eq!(parts[1].height, 1);
                    assert_eq!(parts[2].height, rows);
                } else {
                    assert_eq!(parts[0].height, height.min(1));
                    assert!(parts[1].height <= 1);
                    assert!(parts[2].height <= rows);
                }
            }
        }
    }
}

#[test]
fn rows_before_the_cursor_are_those_of_the_whole_text() {
    let text = "one two\nthree\t中文 four\n\nfive";
    for width in 0..9 {
        let all = wrap(text, width);
        for (at, _) in text.char_indices() {
            let start = wrap(&text[..at], width);
            let last = start.len() - 1;
            assert_eq!(start[..last], all[..last]);
            assert!(all[last].starts_with(start[last].as_str()));
        }
    }
}

#[test]
fn short_ascii_takes_one_row() {
    for (text, width) in [("", 0), ("~", 1), ("Hello, world!", 13), (" a b ", 80)] {
        assert_eq!(wrap(text, width), [text]);
    }
    assert_eq!(wrap("Hello, world!", 12), ["Hello, world", "!"]);
}

#[test]
fn hidden_activity_changes_nothing_on_the_screen_but_its_count() {
    let mut first = Conversation::default();
    let mut second = Conversation::default();
    for (c, output) in [(&mut first, "quiet"), (&mut second, "very\nnoisy\noutput")] {
        for item in [
            json(r#"{"id":"q","type":"userMessage","content":[{"type":"text","text":"Go"}]}"#),
            json(r#"{"id":"c","type":"commandExecution","command":"ls"}"#)
                .with("aggregatedOutput", Json::text(output)),
            json(r#"{"id":"a","type":"agentMessage","text":"Done."}"#),
        ] {
            let params = json("{}").with("item", item);
            c.event(&json(r#"{"method":"item/completed"}"#).with("params", params));
        }
    }
    second.event(&json(r#"{"method":"item/commandExecution/outputDelta","params":{"itemId":"c","delta":"x"}}"#));
    assert_ne!(first.entries[1].text, second.entries[1].text);
    let mut frames = Vec::new();
    for c in [&first, &second] {
        let mut v = View::default();
        let mut terminal = Terminal::new(TestBackend::new(60, 14)).unwrap();
        let scene = v.draw(area(60, 14), c, "Ready", "draft", 5, None);
        show(&mut terminal, &scene);
        frames.push((text(&terminal), scene.input.lines, scene.input.cursor));
    }
    assert_eq!(frames[0], frames[1]);
    assert!(frames[0].0.contains("1 activity items"));
}

#[test]
fn scrolling_shows_in_the_next_drawing() {
    let mut c = Conversation::default();
    for i in 0..5 {
        c.notice(&format!("n{i}"));
    }
    // The conversation has 15 rows; the screens have 4 and no rows for it.
    for (screen, height) in [(area(40, 10), 4), (area(40, 5), 0)] {
        let last = 15 - height;
        for by in [isize::MIN, -20, -3, -1, 0, 1, 2, 20, isize::MAX] {
            let mut v = View::default();
            v.draw(screen, &c, "Ready", "", 0, None);
            v.scroll(-6);
            v.draw(screen, &c, "Ready", "", 0, None);
            let top = v.top() as isize;
            assert_eq!(top, last - 6);
            v.scroll(by);
            let scene = v.draw(screen, &c, "Ready", "", 0, None);
            assert_eq!(v.top() as isize, top.saturating_add(by).max(0).min(last));
            assert_eq!(scene.lines.len() as isize, height);
            v.home();
            v.draw(screen, &c, "Ready", "", 0, None);
            assert_eq!(v.top(), 0);
            v.end();
            v.draw(screen, &c, "Ready", "", 0, None);
            assert_eq!(v.top() as isize, last);
        }
    }
    let mut v = View::default();
    v.draw(area(40, 10), &Conversation::default(), "Ready", "", 0, None);
    v.scroll(3);
    v.draw(area(40, 10), &Conversation::default(), "Ready", "", 0, None);
    assert_eq!(v.top(), 0);
}

#[test]
fn the_cursor_stands_in_the_row_that_ends_before_it() {
    let input = "one two three\nfour 中文 five\n\nsix seven eight nine";
    for size in [4, 5, 8, 13] {
        let place = Area { x: 2, y: 3, width: size + 2, height: 5 };
        for (at, _) in input.char_indices() {
            let shown = draw_input(place, input, at, false);
            let row = (shown.cursor.unwrap().1 - shown.inner.y) as usize;
            let start = wrap(&input[..at], size as usize);
            assert!(shown.lines[row].starts_with(start.last().unwrap().as_str()));
        }
    }
}
