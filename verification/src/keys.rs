//! What keys and pasted text do to a session, and how it is drawn.
use crate::backend::{Client, ClientView, Fault};
use crate::codec::{parsed, Reading};
use crate::options::{Options, OptionsView};
use crate::screen::{input_height, screen_parts, Area, Regions, Scene, ViewState};
use crate::session::{between, App, AppView, Outgoing, OutgoingView, Purpose, Submission};
use crate::session::{SubmissionView, Submitted};
use crate::text::{byte_count, bytes_of, characters, chars_within, cut, gather, lemma_bytes_add};
use crate::text::{lemma_cut, lemma_split, same, size, trim, trimmed};
use vstd::prelude::*;
use vstd::string::*;
use vstd::view::View as _;

verus! {

// ---------------------------------------------------------------------------
// Editing
// ---------------------------------------------------------------------------

impl AppView {
    /// What was entered before the cursor.
    pub open spec fn head(self) -> Seq<char> {
        cut(self.input, self.cursor)
    }

    /// What was entered behind the cursor.
    pub open spec fn tail(self) -> Seq<char> {
        self.input.skip(self.head().len() as int)
    }

    /// With other text before and behind the cursor.
    pub open spec fn edited(self, head: Seq<char>, tail: Seq<char>) -> AppView {
        AppView { input: head + tail, cursor: bytes_of(head), ..self }
    }

    /// With a text inserted at the cursor, which stands behind it now.
    pub open spec fn inserted(self, text: Seq<char>) -> AppView {
        self.edited(self.head() + text, self.tail())
    }

    /// With the cursor before the character that it stood behind.
    pub open spec fn moved_left(self) -> AppView {
        if self.head().len() == 0 {
            self
        } else {
            self.edited(self.head().drop_last(), seq![self.head().last()] + self.tail())
        }
    }

    /// With the cursor behind the character that it stood before.
    pub open spec fn moved_right(self) -> AppView {
        if self.tail().len() == 0 {
            self
        } else {
            self.edited(self.head().push(self.tail()[0]), self.tail().skip(1))
        }
    }

    /// Without the character before the cursor.
    pub open spec fn erased_back(self) -> AppView {
        if self.head().len() == 0 {
            self
        } else {
            self.edited(self.head().drop_last(), self.tail())
        }
    }

    /// Without the character behind the cursor.
    pub open spec fn erased_forward(self) -> AppView {
        if self.tail().len() == 0 {
            self
        } else {
            self.edited(self.head(), self.tail().skip(1))
        }
    }
}

/// The offset behind the first of two texts lies between characters.
proof fn lemma_between(head: Seq<char>, tail: Seq<char>)
    ensures
        between(head + tail, bytes_of(head)),
        cut(head + tail, bytes_of(head)) == head,
{
    lemma_cut(head + tail, head.len() as int);
    assert((head + tail).take(head.len() as int) =~= head);
}

impl App {
    /// What was entered before and behind the cursor.
    fn split(&self) -> (r: (String, String))
        ensures
            r.0@ == self@.head(),
            r.1@ == self@.tail(),
    {
        let chars = characters(self.input.as_str());
        let end = chars_within(&chars, self.cursor);
        let head = gather(&chars, 0, end);
        let tail = gather(&chars, end, chars.len());
        proof {
            assert(chars@.subrange(0, end as int) =~= chars@.take(end as int));
            assert(chars@.subrange(end as int, chars@.len() as int) =~= chars@.skip(end as int));
        }
        (head, tail)
    }

    /// Sets what stands before and behind the cursor.
    fn edit(&mut self, head: String, tail: &str)
        requires
            old(self)@.wf(),
        ensures
            final(self)@ == old(self)@.edited(head@, tail@),
            final(self)@.wf(),
    {
        let mut text = head;
        let cursor = byte_count(text.as_str());
        proof {
            lemma_between(head@, tail@);
        }
        text.append(tail);
        self.input = text;
        self.cursor = cursor;
        assert(self@ =~= old(self)@.edited(head@, tail@));
    }

    /// Inserts a text at the cursor.
    pub fn insert(&mut self, text: &str)
        requires
            old(self)@.wf(),
        ensures
            final(self)@ == old(self)@.inserted(text@),
            final(self)@.wf(),
    {
        let (mut head, tail) = self.split();
        head.append(text);
        self.edit(head, tail.as_str());
    }

    /// Moves the cursor by one character to the left.
    fn left(&mut self)
        requires
            old(self)@.wf(),
        ensures
            final(self)@ == old(self)@.moved_left(),
            final(self)@.wf(),
    {
        let (head, tail) = self.split();
        let chars = characters(head.as_str());
        if chars.len() > 0 {
            let start = gather(&chars, 0, chars.len() - 1);
            let mut rest = gather(&chars, chars.len() - 1, chars.len());
            rest.append(tail.as_str());
            proof {
                assert(chars@.subrange(0, chars@.len() - 1) =~= chars@.drop_last());
                assert(chars@.subrange(chars@.len() - 1, chars@.len() as int) =~= seq![
                    chars@.last(),
                ]);
            }
            self.edit(start, rest.as_str());
        }
    }

    /// Moves the cursor by one character to the right.
    fn right(&mut self)
        requires
            old(self)@.wf(),
        ensures
            final(self)@ == old(self)@.moved_right(),
            final(self)@.wf(),
    {
        let (mut head, tail) = self.split();
        let chars = characters(tail.as_str());
        if chars.len() > 0 {
            head.push(chars[0]);
            let rest = gather(&chars, 1, chars.len());
            assert(chars@.subrange(1, chars@.len() as int) =~= chars@.skip(1));
            self.edit(head, rest.as_str());
        }
    }

    /// Erases the character before the cursor.
    fn backspace(&mut self)
        requires
            old(self)@.wf(),
        ensures
            final(self)@ == old(self)@.erased_back(),
            final(self)@.wf(),
    {
        let (head, tail) = self.split();
        let chars = characters(head.as_str());
        if chars.len() > 0 {
            let start = gather(&chars, 0, chars.len() - 1);
            assert(chars@.subrange(0, chars@.len() - 1) =~= chars@.drop_last());
            self.edit(start, tail.as_str());
        }
    }

    /// Erases the character behind the cursor.
    fn delete(&mut self)
        requires
            old(self)@.wf(),
        ensures
            final(self)@ == old(self)@.erased_forward(),
            final(self)@.wf(),
    {
        let (head, tail) = self.split();
        let chars = characters(tail.as_str());
        if chars.len() > 0 {
            let rest = gather(&chars, 1, chars.len());
            assert(chars@.subrange(1, chars@.len() as int) =~= chars@.skip(1));
            self.edit(head, rest.as_str());
        }
    }
}

// ---------------------------------------------------------------------------
// Keys
// ---------------------------------------------------------------------------

/// A key.
#[derive(Clone, Copy, Debug, PartialEq, Eq, Structural)]
pub enum Key {
    Char(char),
    PageUp,
    PageDown,
    Home,
    End,
    Left,
    Right,
    Backspace,
    Delete,
    Enter,
    Other,
}

/// A key that was pressed, with the modifiers that were held.
#[derive(Clone, Copy, Debug, PartialEq, Eq, Structural)]
pub struct KeyPress {
    pub key: Key,
    pub ctrl: bool,
    pub alt: bool,
}

/// What comes of a key.
#[derive(Debug)]
pub enum Pressed {
    /// The session goes on.
    Stay,
    /// The session ends.
    Leave,
    /// A line is to be written.
    Send(Outgoing, Purpose),
    /// A line cannot be written.
    Failed(Fault, Purpose),
}

/// What comes of a key, by its contents.
pub enum PressedView {
    Stay,
    Leave,
    Send(OutgoingView, Purpose),
    Failed(Fault, Purpose),
}

impl Pressed {
    /// What it holds.
    pub open spec fn view(&self) -> PressedView {
        match self {
            Pressed::Stay => PressedView::Stay,
            Pressed::Leave => PressedView::Leave,
            Pressed::Send(outgoing, purpose) => PressedView::Send(outgoing@, *purpose),
            Pressed::Failed(fault, purpose) => PressedView::Failed(*fault, *purpose),
        }
    }
}

/// What comes of a key, with the states that it leaves.
pub struct Turned {
    pub app: AppView,
    pub client: ClientView,
    pub result: PressedView,
}

/// What comes of submitted input or of an interruption, as what comes of a key.
pub open spec fn turned(submitted: Submitted, purpose: Purpose) -> Turned {
    Turned {
        app: submitted.app,
        client: submitted.client,
        result: match submitted.result {
            Ok(SubmissionView::Done) => PressedView::Stay,
            Ok(SubmissionView::Quit) => PressedView::Leave,
            Ok(SubmissionView::Send(outgoing)) => PressedView::Send(outgoing, purpose),
            Err(fault) => PressedView::Failed(fault, purpose),
        },
    }
}

/// Whether input can be dealt with without a server.
pub open spec fn local_command(input: Seq<char>) -> bool {
    let text = trimmed(input);
    text.len() == 0 || text == "/show"@ || text == "/hide"@ || text == "/toggle"@ || text
        == "/logs"@ || text == "/help"@ || text == "/quit"@ || text == "/exit"@
}

impl AppView {
    /// How far a page reaches.
    pub open spec fn page(self) -> int {
        if self.view.height == 0 {
            1
        } else {
            self.view.height as int
        }
    }

    /// With another view of the conversation.
    pub open spec fn seen(self, view: ViewState) -> AppView {
        AppView { view, ..self }
    }

    /// What the Enter key does, with `read` for what the input denotes as JSON.
    pub open spec fn entered(
        self,
        read: Reading,
        connected: bool,
        client: ClientView,
        options: OptionsView,
        logs: Seq<char>,
    ) -> Turned {
        if !connected && !self.replay && !local_command(self.input) {
            Turned {
                app: self.noticed(
                    "Codex is disconnected. Nothing was sent. Use /logs or /quit, then restart to open or resume a thread."@,
                ).at_end(),
                client,
                result: PressedView::Stay,
            }
        } else {
            turned(self.submitted(read, client, options, logs), Purpose::Request)
        }
    }

    /// What a key does to the session where it writes nothing.
    pub open spec fn moved(self, press: KeyPress) -> AppView {
        match press.key {
            Key::Char(c) => if press.ctrl {
                if c == 'o' {
                    self.seen(self.view.toggled())
                } else {
                    self
                }
            } else {
                self.inserted(seq![c])
            },
            Key::PageUp => self.seen(self.view.scrolled(-self.page())),
            Key::PageDown => self.seen(self.view.scrolled(self.page())),
            Key::Home => if press.ctrl || self.input.len() == 0 {
                self.seen(self.view.at_home())
            } else {
                AppView { cursor: 0, ..self }
            },
            Key::End => if press.ctrl || self.input.len() == 0 {
                self.seen(self.view.at_end())
            } else {
                AppView { cursor: bytes_of(self.input), ..self }
            },
            Key::Left => self.moved_left(),
            Key::Right => self.moved_right(),
            Key::Backspace => self.erased_back(),
            Key::Delete => self.erased_forward(),
            Key::Enter => self.inserted(seq!['\n']),
            Key::Other => self,
        }
    }

    /// What a key does, with `read` for what the input denotes as JSON.
    pub open spec fn pressed(
        self,
        press: KeyPress,
        read: Reading,
        connected: bool,
        client: ClientView,
        options: OptionsView,
        logs: Seq<char>,
    ) -> Turned {
        if press.key == Key::Enter && !press.alt {
            self.entered(read, connected, client, options, logs)
        } else if press.key == Key::Char('c') && press.ctrl && self.busy() && connected {
            turned(self.interrupted(client), Purpose::Interrupt)
        } else if press.ctrl && (press.key == Key::Char('c') || press.key == Key::Char('q')) {
            Turned { app: self, client, result: PressedView::Leave }
        } else {
            Turned { app: self.moved(press), client, result: PressedView::Stay }
        }
    }
}

/// What comes of submitted input or of an interruption, as what comes of a key.
fn turn(result: Result<Submission, Fault>, purpose: Purpose) -> (r: Pressed)
    ensures
        r@ == (match result {
            Ok(Submission::Done) => PressedView::Stay,
            Ok(Submission::Quit) => PressedView::Leave,
            Ok(Submission::Send(outgoing)) => PressedView::Send(outgoing@, purpose),
            Err(fault) => PressedView::Failed(fault, purpose),
        }),
{
    match result {
        Ok(Submission::Done) => Pressed::Stay,
        Ok(Submission::Quit) => Pressed::Leave,
        Ok(Submission::Send(outgoing)) => Pressed::Send(outgoing, purpose),
        Err(fault) => Pressed::Failed(fault, purpose),
    }
}

/// Whether input can be dealt with without a server.
fn is_local(input: &str) -> (r: bool)
    ensures
        r == local_command(input@),
{
    let entered = trim(input);
    let text = entered.as_str();
    text.is_empty() || same(text, "/show") || same(text, "/hide") || same(text, "/toggle") || same(
        text,
        "/logs",
    ) || same(text, "/help") || same(text, "/quit") || same(text, "/exit")
}

proof fn lemma_ends_between(s: Seq<char>)
    ensures
        between(s, 0),
        between(s, bytes_of(s)),
{
    lemma_cut(s, 0);
    lemma_cut(s, s.len() as int);
    assert(s.take(0) =~= Seq::empty());
    assert(s.take(s.len() as int) =~= s);
}

impl App {
    /// How far a page reaches.
    fn page(&self) -> (r: isize)
        requires
            self@.wf(),
        ensures
            r == self@.page(),
    {
        let height = self.view.height;
        if height == 0 {
            1
        } else {
            height as isize
        }
    }

    /// Does what a key does to the session where it writes nothing.
    fn move_by(&mut self, press: KeyPress)
        requires
            old(self)@.wf(),
        ensures
            final(self)@ == old(self)@.moved(press),
            final(self)@.wf(),
    {
        proof {
            lemma_ends_between(self.input@);
        }
        match press.key {
            Key::Char(c) => {
                if press.ctrl {
                    if c == 'o' {
                        self.view.toggle();
                    }
                } else {
                    let mut text = String::new();
                    text.push(c);
                    assert(text@ =~= seq![c]);
                    self.insert(text.as_str());
                }
            },
            Key::PageUp => {
                let page = self.page();
                self.view.scroll(-page);
            },
            Key::PageDown => {
                let page = self.page();
                self.view.scroll(page);
            },
            Key::Home => {
                if press.ctrl || self.input.as_str().is_empty() {
                    self.view.home();
                } else {
                    self.cursor = 0;
                }
            },
            Key::End => {
                if press.ctrl || self.input.as_str().is_empty() {
                    self.view.end();
                } else {
                    self.cursor = byte_count(self.input.as_str());
                }
            },
            Key::Left => {
                self.left();
            },
            Key::Right => {
                self.right();
            },
            Key::Backspace => {
                self.backspace();
            },
            Key::Delete => {
                self.delete();
            },
            Key::Enter => {
                proof {
                    reveal_strlit("\n");
                    assert("\n"@ =~= seq!['\n']);
                }
                self.insert("\n");
            },
            Key::Other => {},
        }
    }

    /// Does what the Enter key does.
    fn enter(&mut self, connected: bool, client: &mut Client, options: &Options, logs: &str) -> (r:
        Pressed)
        requires
            old(self)@.wf(),
        ensures
            final(self)@ == old(self)@.entered(
                parsed(trimmed(old(self)@.input)),
                connected,
                old(client)@,
                options@,
                logs@,
            ).app,
            final(client)@ == old(self)@.entered(
                parsed(trimmed(old(self)@.input)),
                connected,
                old(client)@,
                options@,
                logs@,
            ).client,
            r@ == old(self)@.entered(
                parsed(trimmed(old(self)@.input)),
                connected,
                old(client)@,
                options@,
                logs@,
            ).result,
            final(self)@.wf(),
    {
        if !connected && !self.replay && !is_local(self.input.as_str()) {
            self.conversation.notice(
                "Codex is disconnected. Nothing was sent. Use /logs or /quit, then restart to open or resume a thread.",
            );
            self.view.end();
            return Pressed::Stay;
        }
        let result = self.submit(client, options, logs);
        turn(result, Purpose::Request)
    }

    /// Does what a key does.
    pub fn press(
        &mut self,
        press: KeyPress,
        connected: bool,
        client: &mut Client,
        options: &Options,
        logs: &str,
    ) -> (r: Pressed)
        requires
            old(self)@.wf(),
        ensures
            final(self)@ == old(self)@.pressed(
                press,
                parsed(trimmed(old(self)@.input)),
                connected,
                old(client)@,
                options@,
                logs@,
            ).app,
            final(client)@ == old(self)@.pressed(
                press,
                parsed(trimmed(old(self)@.input)),
                connected,
                old(client)@,
                options@,
                logs@,
            ).client,
            r@ == old(self)@.pressed(
                press,
                parsed(trimmed(old(self)@.input)),
                connected,
                old(client)@,
                options@,
                logs@,
            ).result,
            final(self)@.wf(),
    {
        let stop = press.key == Key::Char('c') && press.ctrl;
        let quit = press.key == Key::Char('q') && press.ctrl;
        if press.key == Key::Enter && !press.alt {
            self.enter(connected, client, options, logs)
        } else if stop && self.busy() && connected {
            let result = self.interrupt(client);
            turn(result, Purpose::Interrupt)
        } else if stop || quit {
            Pressed::Leave
        } else {
            self.move_by(press);
            Pressed::Stay
        }
    }

    /// The scene for a screen of a given size.
    pub fn draw(&mut self, area: Area) -> (r: Scene)
        requires
            old(self)@.wf(),
        ensures
            exists|regions: Regions|
                #![trigger old(self)@.view.placed(regions, old(self)@.conversation)]
                {
                    &&& screen_parts(area, input_height(old(self)@.input), regions)
                    &&& final(self)@ == old(self)@.seen(
                        old(self)@.view.placed(regions, old(self)@.conversation),
                    )
                    &&& r@ == final(self)@.view.scene(
                        regions,
                        old(self)@.conversation,
                        old(self)@.status,
                        old(self)@.input,
                        old(self)@.cursor,
                        old(self)@.pending.len() > 0,
                    )
                },
            final(self)@.wf(),
    {
        let pending = if self.pending.len() > 0 {
            Some("")
        } else {
            None
        };
        self.view.draw(
            area,
            &self.conversation,
            self.status.as_str(),
            self.input.as_str(),
            self.cursor,
            pending,
        )
    }
}

// ---------------------------------------------------------------------------
// Laws
// ---------------------------------------------------------------------------

/// Moving the cursor changes nothing of what was entered.
pub proof fn moving_keeps_the_text(a: AppView)
    requires
        a.wf(),
    ensures
        a.moved_left().input == a.input,
        a.moved_right().input == a.input,
        a.moved_left().cursor <= a.cursor <= a.moved_right().cursor,
{
    lemma_split(a.input, a.cursor);
    let head = a.head();
    let tail = a.tail();
    if head.len() > 0 {
        assert(head.drop_last() + (seq![head.last()] + tail) =~= head + tail);
        assert(bytes_of(head) == bytes_of(head.drop_last()) + size(head.last()));
    }
    if tail.len() > 0 {
        assert(head.push(tail[0]) + tail.skip(1) =~= head + tail);
        assert(head.push(tail[0]).drop_last() =~= head);
    }
}

/// What is inserted stands before the cursor, and nothing else changes around it.
pub proof fn insertion_puts_text_before_the_cursor(a: AppView, text: Seq<char>)
    requires
        a.wf(),
    ensures
        a.inserted(text).head() == a.head() + text,
        a.inserted(text).tail() == a.tail(),
        a.inserted(text).cursor == a.cursor + bytes_of(text),
{
    lemma_between(a.head() + text, a.tail());
    lemma_bytes_add(a.head(), text);
    assert((a.head() + text + a.tail()).skip((a.head() + text).len() as int) =~= a.tail());
}

/// Erasing undoes the insertion of a character.
pub proof fn erasing_undoes_insertion(a: AppView, c: char)
    requires
        a.wf(),
    ensures
        a.inserted(seq![c]).erased_back() == a,
{
    insertion_puts_text_before_the_cursor(a, seq![c]);
    lemma_split(a.input, a.cursor);
    assert((a.head() + seq![c]).drop_last() =~= a.head());
    assert(a.inserted(seq![c]).erased_back().input =~= a.input);
}

/// Moving left and right again leaves the session as it was.
pub proof fn moving_right_undoes_moving_left(a: AppView)
    requires
        a.wf(),
        a.head().len() > 0,
    ensures
        a.moved_left().moved_right() == a,
{
    lemma_split(a.input, a.cursor);
    let head = a.head();
    let tail = a.tail();
    let rest = seq![head.last()] + tail;
    lemma_between(head.drop_last(), rest);
    assert((head.drop_last() + rest).skip(head.drop_last().len() as int) =~= rest);
    assert(head.drop_last().push(rest[0]) =~= head);
    assert(rest.skip(1) =~= tail);
}

/// A disconnected session writes nothing, whatever key is pressed.
pub proof fn nothing_is_sent_while_disconnected(
    a: AppView,
    press: KeyPress,
    read: Reading,
    client: ClientView,
    options: OptionsView,
    logs: Seq<char>,
)
    ensures
        !(a.pressed(press, read, false, client, options, logs).result is Send),
        !(a.pressed(press, read, false, client, options, logs).result is Failed),
        a.pressed(press, read, false, client, options, logs).client == client,
{
}

/// The view of the conversation is moved and toggled without touching the conversation or the input.
pub proof fn viewing_changes_only_the_view(a: AppView, press: KeyPress)
    requires
        press.key is PageUp || press.key is PageDown || (press.ctrl && (press.key is Home
            || press.key is End || press.key == Key::Char('o'))),
    ensures
        a.moved(press) == a.seen(a.moved(press).view),
{
}

/// Ctrl+C interrupts a turn that is running, and otherwise ends the session.
pub proof fn control_c_interrupts_or_leaves(
    a: AppView,
    press: KeyPress,
    read: Reading,
    connected: bool,
    client: ClientView,
    options: OptionsView,
    logs: Seq<char>,
)
    requires
        press.key == Key::Char('c'),
        press.ctrl,
    ensures
        a.pressed(press, read, connected, client, options, logs).result is Leave <==> !(a.busy()
            && connected),
{
}

// ---------------------------------------------------------------------------
// What each key is for
// ---------------------------------------------------------------------------

/// Keys edit what was entered at the cursor. A character, and a line feed for Enter with Alt, is put there;
/// Left and Right move by one character, Home and End to the ends; Backspace erases the character before
/// the cursor and Delete the one behind it. Nothing else of the session changes.
pub proof fn keys_edit_at_the_cursor(
    a: AppView,
    head: Seq<char>,
    tail: Seq<char>,
    c: char,
    alt: bool,
)
    requires
        a.input == head + tail,
        a.cursor == bytes_of(head),
    ensures
        a.moved(KeyPress { key: Key::Char(c), ctrl: false, alt }) == (AppView {
            input: head + seq![c] + tail,
            cursor: bytes_of(head) + size(c),
            ..a
        }),
        a.moved(KeyPress { key: Key::Enter, ctrl: false, alt: true }) == (AppView {
            input: head + seq!['\n'] + tail,
            cursor: bytes_of(head) + 1,
            ..a
        }),
        a.moved(KeyPress { key: Key::Left, ctrl: false, alt }) == (AppView {
            cursor: if head.len() == 0 {
                0
            } else {
                bytes_of(head.drop_last())
            },
            ..a
        }),
        a.moved(KeyPress { key: Key::Right, ctrl: false, alt }) == (AppView {
            cursor: if tail.len() == 0 {
                a.cursor
            } else {
                bytes_of(head) + size(tail[0])
            },
            ..a
        }),
        a.moved(KeyPress { key: Key::Backspace, ctrl: false, alt }) == (AppView {
            input: if head.len() == 0 {
                tail
            } else {
                head.drop_last() + tail
            },
            cursor: if head.len() == 0 {
                0
            } else {
                bytes_of(head.drop_last())
            },
            ..a
        }),
        a.moved(KeyPress { key: Key::Delete, ctrl: false, alt }) == (AppView {
            input: if tail.len() == 0 {
                head
            } else {
                head + tail.skip(1)
            },
            ..a
        }),
        a.input.len() > 0 ==> a.moved(KeyPress { key: Key::Home, ctrl: false, alt }) == (AppView {
            cursor: 0,
            ..a
        }),
        a.input.len() > 0 ==> a.moved(KeyPress { key: Key::End, ctrl: false, alt }) == (AppView {
            cursor: bytes_of(a.input),
            ..a
        }),
        a.moved(KeyPress { key: Key::Other, ctrl: false, alt }) == a,
{
    lemma_between(head, tail);
    assert(a.head() == head);
    assert((head + tail).skip(head.len() as int) =~= tail);
    lemma_one_byte_count(c);
    lemma_one_byte_count('\n');
    lemma_bytes_add(head, seq![c]);
    lemma_bytes_add(head, seq!['\n']);
    if head.len() > 0 {
        assert(head.drop_last() + (seq![head.last()] + tail) =~= head + tail);
    } else {
        assert(head + tail =~= tail);
    }
    if tail.len() > 0 {
        assert(head.push(tail[0]) + tail.skip(1) =~= head + tail);
        assert(head.push(tail[0]) =~= head + seq![tail[0]]);
        lemma_one_byte_count(tail[0]);
        lemma_bytes_add(head, seq![tail[0]]);
    } else {
        assert(head + tail =~= head);
    }
}

proof fn lemma_one_byte_count(c: char)
    ensures
        bytes_of(seq![c]) == size(c),
{
    assert(seq![c].drop_last() =~= Seq::empty());
    reveal_with_fuel(bytes_of, 2);
}

/// Pasted text is put at the cursor as a whole, which stands behind it then.
pub proof fn pasted_text_is_put_at_the_cursor(
    a: AppView,
    head: Seq<char>,
    tail: Seq<char>,
    text: Seq<char>,
)
    requires
        a.input == head + tail,
        a.cursor == bytes_of(head),
    ensures
        a.inserted(text) == (AppView {
            input: head + text + tail,
            cursor: bytes_of(head) + bytes_of(text),
            ..a
        }),
{
    lemma_between(head, tail);
    assert((head + tail).skip(head.len() as int) =~= tail);
    lemma_bytes_add(head, text);
}

/// Keys that are about the conversation change only what is seen of it: Ctrl+O shows activity or hides it,
/// PgUp and PgDn scroll by what the screen shows, and Home and End, with Ctrl or with nothing entered, go to
/// its ends. Control keys without a meaning change nothing.
pub proof fn keys_move_the_conversation(a: AppView, c: char, ctrl: bool, alt: bool)
    ensures
        a.moved(KeyPress { key: Key::Char('o'), ctrl: true, alt }) == (AppView {
            view: ViewState { expanded: !a.view.expanded, ..a.view },
            ..a
        }),
        c != 'o' ==> a.moved(KeyPress { key: Key::Char(c), ctrl: true, alt }) == a,
        a.moved(KeyPress { key: Key::PageUp, ctrl, alt }) == (AppView {
            view: a.view.scrolled(
                if a.view.height == 0 {
                    -1
                } else {
                    -(a.view.height as int)
                },
            ),
            ..a
        }),
        a.moved(KeyPress { key: Key::PageDown, ctrl, alt }) == (AppView {
            view: a.view.scrolled(
                if a.view.height == 0 {
                    1
                } else {
                    a.view.height as int
                },
            ),
            ..a
        }),
        ctrl || a.input.len() == 0 ==> a.moved(KeyPress { key: Key::Home, ctrl, alt }) == (AppView {
            view: ViewState { anchor: Some((0, 0)), ..a.view },
            ..a
        }),
        ctrl || a.input.len() == 0 ==> a.moved(KeyPress { key: Key::End, ctrl, alt }) == (AppView {
            view: ViewState { anchor: None, ..a.view },
            ..a
        }),
{
}

/// Enter submits what was entered; only what needs no server is dealt with while there is none, and in a
/// replay there need not be one. What comes of it is written, or ends the session, or neither.
pub proof fn enter_submits(
    a: AppView,
    ctrl: bool,
    read: Reading,
    connected: bool,
    client: ClientView,
    options: OptionsView,
    logs: Seq<char>,
)
    ensures
        ({
            let entered = trimmed(a.input);
            let local = entered.len() == 0 || entered == "/show"@ || entered == "/hide"@ || entered
                == "/toggle"@ || entered == "/logs"@ || entered == "/help"@ || entered == "/quit"@
                || entered == "/exit"@;
            let press = KeyPress { key: Key::Enter, ctrl, alt: false };
            let done = a.pressed(press, read, connected, client, options, logs);
            let submitted = a.submitted(read, client, options, logs);
            if connected || a.replay || local {
                &&& done.app == submitted.app
                &&& done.client == submitted.client
                &&& match submitted.result {
                    Ok(SubmissionView::Done) => done.result == PressedView::Stay,
                    Ok(SubmissionView::Quit) => done.result == PressedView::Leave,
                    Ok(SubmissionView::Send(outgoing)) => done.result == PressedView::Send(
                        outgoing,
                        Purpose::Request,
                    ),
                    Err(fault) => done.result == PressedView::Failed(fault, Purpose::Request),
                }
            } else {
                &&& done.client == client
                &&& done.result == PressedView::Stay
                &&& done.app == (AppView {
                    conversation: a.conversation.noticed(
                        "Codex is disconnected. Nothing was sent. Use /logs or /quit, then restart to open or resume a thread."@,
                    ),
                    view: ViewState { anchor: None, ..a.view },
                    ..a
                })
            }
        }),
{
}

/// Ctrl+C interrupts the running turn if there is a server to interrupt it, and otherwise ends the session,
/// as Ctrl+Q always does. Every other key but Enter only edits or moves, and writes nothing.
pub proof fn control_keys_interrupt_or_leave(
    a: AppView,
    press: KeyPress,
    alt: bool,
    read: Reading,
    connected: bool,
    client: ClientView,
    options: OptionsView,
    logs: Seq<char>,
)
    ensures
        ({
            let stop = KeyPress { key: Key::Char('c'), ctrl: true, alt };
            let quit = KeyPress { key: Key::Char('q'), ctrl: true, alt };
            let stopped = a.pressed(stop, read, connected, client, options, logs);
            let left = a.pressed(quit, read, connected, client, options, logs);
            let asked = a.interrupted(client);
            let running = a.turn is Some || a.starting_turn;
            let other = a.pressed(press, read, connected, client, options, logs);
            &&& left.app == a && left.client == client && left.result == PressedView::Leave
            &&& !(running && connected) ==> stopped.app == a && stopped.client == client
                && stopped.result == PressedView::Leave
            &&& running && connected ==> stopped.app == asked.app && stopped.client == asked.client
                && match asked.result {
                Ok(SubmissionView::Done) => stopped.result == PressedView::Stay,
                Ok(SubmissionView::Quit) => stopped.result == PressedView::Leave,
                Ok(SubmissionView::Send(outgoing)) => stopped.result == PressedView::Send(
                    outgoing,
                    Purpose::Interrupt,
                ),
                Err(fault) => stopped.result == PressedView::Failed(fault, Purpose::Interrupt),
            }
            &&& !(press.key == Key::Enter && !press.alt) && !(press.ctrl && (press.key == Key::Char(
                'c',
            ) || press.key == Key::Char('q'))) ==> other.app == a.moved(press) && other.client
                == client && other.result == PressedView::Stay
        }),
{
}

} // verus!
