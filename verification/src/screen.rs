//! What the terminal shows: external text made harmless, wrapped and laid out.
use crate::conversation::{after_all, Conversation, ConversationView, Entry, EntryView, Kind};
use crate::json::JsonView;
use crate::text::{at_boundary, characters, chars_within, control, count_lines, cut, decimal};
use crate::text::{gather, is_control, lemma_split, line_count, texts, to_decimal};
use vstd::prelude::*;
use vstd::string::*;
use vstd::view::View as _;

verus! {

// ---------------------------------------------------------------------------
// Control sequences
// ---------------------------------------------------------------------------

/// What follows a control sequence that ends with a character from `@` to `~`.
pub open spec fn after_csi(s: Seq<char>) -> Seq<char>
    decreases s.len(),
{
    if s.len() == 0 {
        s
    } else if '@' <= s[0] <= '~' {
        s.skip(1)
    } else {
        after_csi(s.skip(1))
    }
}

/// What follows an operating system command, which ends with a bell or with an escape and a
/// backslash.
pub open spec fn after_osc(s: Seq<char>) -> Seq<char>
    decreases s.len(),
{
    if s.len() == 0 {
        s
    } else if s[0] == '\x07' {
        s.skip(1)
    } else if s[0] == '\x1b' && s.len() > 1 && s[1] == '\\' {
        s.skip(2)
    } else {
        after_osc(s.skip(1))
    }
}

/// What follows an escape sequence, of which the escape itself is already gone.
pub open spec fn after_escape(s: Seq<char>) -> Seq<char> {
    if s.len() == 0 {
        s
    } else if s[0] == '[' {
        after_csi(s.skip(1))
    } else if s[0] == ']' {
        after_osc(s.skip(1))
    } else {
        s.skip(1)
    }
}

/// How a character outside of escape sequences is shown.
pub open spec fn plain(c: char) -> Seq<char> {
    if c == '\t' {
        seq![' ', ' ', ' ', ' ']
    } else if c == '\n' || !control(c) {
        seq![c]
    } else {
        Seq::empty()
    }
}

/// A text without its control sequences and control characters.
pub open spec fn cleaned(s: Seq<char>) -> Seq<char>
    decreases s.len(),
{
    if s.len() == 0 {
        s
    } else if s[0] == '\x1b' {
        proof {
            lemma_escape_shrinks(s.skip(1));
        }
        cleaned(after_escape(s.skip(1)))
    } else {
        plain(s[0]) + cleaned(s.skip(1))
    }
}

proof fn lemma_csi_shrinks(s: Seq<char>)
    ensures
        after_csi(s).len() <= s.len(),
    decreases s.len(),
{
    if s.len() > 0 && !('@' <= s[0] <= '~') {
        lemma_csi_shrinks(s.skip(1));
    }
}

proof fn lemma_osc_shrinks(s: Seq<char>)
    ensures
        after_osc(s).len() <= s.len(),
    decreases s.len(),
{
    if s.len() > 0 {
        lemma_osc_shrinks(s.skip(1));
    }
}

/// What follows an escape sequence is no longer than what it stood in.
pub proof fn lemma_escape_shrinks(s: Seq<char>)
    ensures
        after_escape(s).len() <= s.len(),
{
    if s.len() > 0 {
        lemma_csi_shrinks(s.skip(1));
        lemma_osc_shrinks(s.skip(1));
    }
}

/// Where what follows a control sequence begins.
fn skip_csi(chars: &Vec<char>, from: usize) -> (to: usize)
    requires
        from <= chars@.len(),
    ensures
        from <= to <= chars@.len(),
        chars@.skip(to as int) == after_csi(chars@.skip(from as int)),
{
    let mut at: usize = from;
    while at < chars.len()
        invariant
            from <= at <= chars.len(),
            after_csi(chars@.skip(at as int)) == after_csi(chars@.skip(from as int)),
        decreases chars.len() - at,
    {
        let next = chars[at];
        assert(chars@.skip(at as int)[0] == next);
        assert(chars@.skip(at as int).skip(1) =~= chars@.skip(at + 1));
        at = at + 1;
        if '@' <= next && next <= '~' {
            return at;
        }
    }
    at
}

/// Where what follows an operating system command begins.
fn skip_osc(chars: &Vec<char>, from: usize) -> (to: usize)
    requires
        from <= chars@.len(),
    ensures
        from <= to <= chars@.len(),
        chars@.skip(to as int) == after_osc(chars@.skip(from as int)),
{
    let mut at: usize = from;
    while at < chars.len()
        invariant
            from <= at <= chars.len(),
            after_osc(chars@.skip(at as int)) == after_osc(chars@.skip(from as int)),
        decreases chars.len() - at,
    {
        let next = chars[at];
        assert(chars@.skip(at as int)[0] == next);
        assert(chars@.skip(at as int).skip(1) =~= chars@.skip(at + 1));
        if next == '\x07' {
            return at + 1;
        }
        if next == '\x1b' && at + 1 < chars.len() && chars[at + 1] == '\\' {
            assert(chars@.skip(at as int)[1] == '\\');
            assert(chars@.skip(at as int).skip(2) =~= chars@.skip(at + 2));
            return at + 2;
        }
        assert(chars@.skip(at as int).len() > 1 ==> chars@.skip(at as int)[1] == chars@[at + 1]);
        at = at + 1;
    }
    at
}

/// Where what follows an escape sequence begins.
fn skip_escape(chars: &Vec<char>, from: usize) -> (to: usize)
    requires
        from <= chars@.len(),
    ensures
        from <= to <= chars@.len(),
        chars@.skip(to as int) == after_escape(chars@.skip(from as int)),
{
    if from == chars.len() {
        return from;
    }
    assert(chars@.skip(from as int)[0] == chars@[from as int]);
    assert(chars@.skip(from as int).skip(1) =~= chars@.skip(from + 1));
    if chars[from] == '[' {
        skip_csi(chars, from + 1)
    } else if chars[from] == ']' {
        skip_osc(chars, from + 1)
    } else {
        from + 1
    }
}

/// Strip terminal control sequences before displaying external text.
pub fn clean(text: &str) -> (r: String)
    ensures
        r@ == cleaned(text@),
{
    let chars = characters(text);
    let mut result = String::new();
    let mut at: usize = 0;
    assert(chars@.skip(0) =~= chars@);
    assert(Seq::<char>::empty() + cleaned(chars@) =~= cleaned(chars@));
    while at < chars.len()
        invariant
            at <= chars.len(),
            result@ + cleaned(chars@.skip(at as int)) == cleaned(chars@),
        decreases chars.len() - at,
    {
        let c = chars[at];
        let ghost rest = chars@.skip(at as int);
        let ghost done = result@;
        assert(rest[0] == c);
        assert(rest.skip(1) =~= chars@.skip(at + 1));
        if c == '\x1b' {
            at = skip_escape(&chars, at + 1);
        } else {
            if c == '\t' {
                proof {
                    reveal_strlit("    ");
                }
                result.append("    ");
                assert("    "@ =~= plain(c));
            } else if c == '\n' || !is_control(c) {
                result.push(c);
            }
            at = at + 1;
            assert(result@ =~= done + plain(c));
            assert(result@ + cleaned(rest.skip(1)) =~= done + (plain(c) + cleaned(rest.skip(1))));
        }
    }
    assert(chars@.skip(at as int) =~= Seq::empty());
    assert(result@ + Seq::<char>::empty() =~= result@);
    result
}

/// Whether a text holds no control character but line feeds.
pub open spec fn harmless(s: Seq<char>) -> bool {
    forall|i: int| 0 <= i < s.len() ==> (#[trigger] s[i]) == '\n' || !control(s[i])
}

/// No control character but the line feed reaches the terminal, whatever the text holds.
pub proof fn clean_text_is_harmless(s: Seq<char>)
    ensures
        harmless(cleaned(s)),
    decreases s.len(),
{
    if s.len() > 0 {
        if s[0] == '\x1b' {
            lemma_escape_shrinks(s.skip(1));
            clean_text_is_harmless(after_escape(s.skip(1)));
        } else {
            clean_text_is_harmless(s.skip(1));
        }
    }
}

/// A text without control characters is shown as it is.
pub proof fn harmless_text_is_kept(s: Seq<char>)
    requires
        harmless(s),
    ensures
        cleaned(s) == s,
    decreases s.len(),
{
    if s.len() > 0 {
        assert(s[0] == '\n' || !control(s[0]));
        assert forall|i: int| 0 <= i < s.skip(1).len() implies (#[trigger] s.skip(1)[i]) == '\n'
            || !control(s.skip(1)[i]) by {
            assert(s.skip(1)[i] == s[i + 1]);
        }
        harmless_text_is_kept(s.skip(1));
        assert(seq![s[0]] + s.skip(1) =~= s);
    }
}

/// Cleaning a text twice is the same as cleaning it once.
pub proof fn cleaning_twice_is_cleaning_once(s: Seq<char>)
    ensures
        cleaned(cleaned(s)) == cleaned(s),
{
    clean_text_is_harmless(s);
    harmless_text_is_kept(cleaned(s));
}

// ---------------------------------------------------------------------------
// Wrapping
// ---------------------------------------------------------------------------

/// How many columns a character takes; a control character has no width.
pub uninterp spec fn char_width(c: char) -> Option<usize>;

/// Whether a character is a printable one of ASCII.
pub open spec fn printable(c: char) -> bool {
    ' ' <= c <= '~'
}

/// `unicode_width::UnicodeWidthChar::width` gives the columns that a character takes, and
/// nothing just where it is a control character. A printable character of ASCII takes one.
#[verifier::external_body]
fn outside_width(c: char) -> (r: Option<usize>)
    ensures
        r == char_width(c),
        r is None <==> control(c),
        printable(c) ==> r == Some(1usize),
{
    unicode_width::UnicodeWidthChar::width(c)
}

/// How many columns a character takes on the screen.
pub open spec fn columns(c: char) -> nat {
    match char_width(c) {
        Some(width) => width as nat,
        None => 0,
    }
}

/// How many columns a row takes on the screen.
pub open spec fn row_width(row: Seq<char>) -> nat
    decreases row.len(),
{
    if row.len() == 0 {
        0
    } else {
        row_width(row.drop_last()) + columns(row.last())
    }
}

/// Rows with one more character: a line feed starts a new row, and so does a character that does
/// not fit behind those of the last row.
pub open spec fn with_char(rows: Seq<Seq<char>>, c: char, width: nat) -> Seq<Seq<char>> {
    if c == '\n' {
        rows.push(Seq::empty())
    } else if rows.last().len() > 0 && row_width(rows.last()) + columns(c) > width {
        rows.push(seq![c])
    } else {
        rows.drop_last().push(rows.last().push(c))
    }
}

/// A harmless text in rows, each filled before the next is begun.
pub open spec fn filled(s: Seq<char>, width: nat) -> Seq<Seq<char>>
    decreases s.len(),
{
    if s.len() == 0 {
        seq![Seq::empty()]
    } else {
        with_char(filled(s.drop_last(), width), s.last(), width)
    }
}

/// The rows in which a text is shown, at least one column wide.
pub open spec fn wrapped(s: Seq<char>, width: nat) -> Seq<Seq<char>> {
    filled(
        cleaned(s),
        if width == 0 {
            1
        } else {
            width
        },
    )
}

proof fn lemma_filled_nonempty(s: Seq<char>, width: nat)
    ensures
        filled(s, width).len() > 0,
    decreases s.len(),
{
    if s.len() > 0 {
        lemma_filled_nonempty(s.drop_last(), width);
    }
}

/// How many columns a character takes on the screen.
fn count_columns(c: char) -> (r: usize)
    ensures
        r == columns(c),
        printable(c) ==> r == 1,
{
    match outside_width(c) {
        Some(width) => width,
        None => 0,
    }
}

/// Whether all characters of a text are printable ones of ASCII.
pub open spec fn all_printable(s: Seq<char>) -> bool {
    forall|i: int| 0 <= i < s.len() ==> printable(#[trigger] s[i])
}

/// The rows in which a text is shown. One that is printable ASCII and no longer than the width is shown
/// as it is, in a single row.
pub fn wrap(text: &str, width: usize) -> (r: Vec<String>)
    ensures
        texts(r@) == wrapped(text@, width as nat),
        r@.len() > 0,
        all_printable(text@) && text@.len() <= width ==> texts(r@) == seq![text@],
{
    let ghost simple = all_printable(text@) && text@.len() <= width;
    let ghost given = text@;
    proof {
        if simple {
            assert forall|i: int| 0 <= i < given.len() implies (#[trigger] given[i]) == '\n'
                || !control(given[i]) by {
                assert(printable(given[i]));
            }
            harmless_text_is_kept(given);
        }
    }
    let width: usize = if width == 0 {
        1
    } else {
        width
    };
    let text = clean(text);
    let chars = characters(text.as_str());
    let mut rows: Vec<String> = Vec::new();
    let mut row = String::new();
    let mut used: usize = 0;
    let mut fresh = true;
    assert(chars@.take(0) =~= Seq::empty());
    assert(texts(rows@).push(row@) =~= seq![Seq::<char>::empty()]);
    for i in 0..chars.len()
        invariant
            texts(rows@).push(row@) == filled(chars@.take(i as int), width as nat),
            fresh <==> row@.len() == 0,
            used == row_width(row@),
            fresh || used <= width || row@.len() == 1,
            simple ==> chars@ == given && all_printable(given) && given.len() <= width,
            simple ==> rows@.len() == 0 && row@ == given.take(i as int) && used == i,
    {
        let c = chars[i];
        let ghost before = texts(rows@).push(row@);
        let ghost old_row = row@;
        let ghost old_rows = texts(rows@);
        assert(chars@.take(i + 1).drop_last() =~= chars@.take(i as int));
        assert(chars@.take(i + 1).last() == c);
        assert(before.last() == row@);
        assert(before.drop_last() =~= old_rows);
        assert(simple ==> printable(given[i as int]));
        assert(simple ==> given.take(i + 1) =~= given.take(i as int).push(c));
        let mut full = String::new();
        if c == '\n' {
            core::mem::swap(&mut full, &mut row);
            rows.push(full);
            used = 0;
            fresh = true;
            assert(texts(rows@) =~= old_rows.push(old_row));
        } else {
            let len = count_columns(c);
            if !fresh && (used > width || len > width - used) {
                core::mem::swap(&mut full, &mut row);
                rows.push(full);
                used = 0;
                assert(texts(rows@) =~= old_rows.push(old_row));
            }
            let ghost base = row@;
            assert(row_width(base) == used);
            row.push(c);
            fresh = false;
            assert(row@.drop_last() =~= base);
            assert(Seq::<char>::empty().push(c) =~= seq![c]);
            used = used + len;
        }
    }
    assert(chars@.take(chars@.len() as int) =~= chars@);
    let ghost before = texts(rows@).push(row@);
    rows.push(row);
    assert(texts(rows@) =~= before);
    assert(simple ==> texts(rows@) =~= seq![given]);
    rows
}

/// Every row fits the width, unless a single character does not.
pub proof fn rows_fit(s: Seq<char>, width: nat, i: int)
    requires
        0 <= i < wrapped(s, width).len(),
    ensures
        wrapped(s, width)[i].len() <= 1 || row_width(wrapped(s, width)[i]) <= if width == 0 {
            1
        } else {
            width
        },
{
    let limit = if width == 0 {
        1
    } else {
        width
    };
    lemma_filled_fits(cleaned(s), limit);
}

proof fn lemma_filled_fits(s: Seq<char>, width: nat)
    ensures
        forall|i: int|
            0 <= i < filled(s, width).len() ==> (#[trigger] filled(s, width)[i]).len() <= 1
                || row_width(filled(s, width)[i]) <= width,
    decreases s.len(),
{
    if s.len() > 0 {
        let rows = filled(s.drop_last(), width);
        lemma_filled_fits(s.drop_last(), width);
        lemma_filled_nonempty(s.drop_last(), width);
        let c = s.last();
        assert(rows.last().push(c).drop_last() =~= rows.last());
        assert(rows[rows.len() - 1] == rows.last());
        assert forall|i: int| 0 <= i < filled(s, width).len() implies (#[trigger] filled(
            s,
            width,
        )[i]).len() <= 1 || row_width(filled(s, width)[i]) <= width by {
            if i < rows.len() - 1 {
                assert(filled(s, width)[i] == rows[i]);
            }
        }
    }
}

/// The rows one behind the other.
pub open spec fn flat(rows: Seq<Seq<char>>) -> Seq<char>
    decreases rows.len(),
{
    if rows.len() == 0 {
        Seq::empty()
    } else {
        flat(rows.drop_last()) + rows.last()
    }
}

/// A text without its line feeds.
pub open spec fn without_feeds(s: Seq<char>) -> Seq<char>
    decreases s.len(),
{
    if s.len() == 0 {
        s
    } else if s.last() == '\n' {
        without_feeds(s.drop_last())
    } else {
        without_feeds(s.drop_last()).push(s.last())
    }
}

/// Wrapping loses and adds nothing: the rows hold the cleaned text, without its line feeds.
pub proof fn wrapping_keeps_the_text(s: Seq<char>, width: nat)
    ensures
        flat(wrapped(s, width)) == without_feeds(cleaned(s)),
{
    lemma_filled_keeps(
        cleaned(s),
        if width == 0 {
            1
        } else {
            width
        },
    );
}

proof fn lemma_filled_keeps(s: Seq<char>, width: nat)
    ensures
        flat(filled(s, width)) == without_feeds(s),
    decreases s.len(),
{
    if s.len() == 0 {
        let rows: Seq<Seq<char>> = seq![Seq::empty()];
        assert(rows.drop_last() =~= Seq::empty());
        reveal_with_fuel(flat, 2);
        assert(flat(rows) =~= s);
    } else {
        let rows = filled(s.drop_last(), width);
        let more = filled(s, width);
        let c = s.last();
        lemma_filled_keeps(s.drop_last(), width);
        lemma_filled_nonempty(s.drop_last(), width);
        if more.len() > rows.len() {
            assert(more.drop_last() =~= rows);
        } else {
            assert(more.drop_last() =~= rows.drop_last());
        }
        if c == '\n' {
            assert(flat(more) =~= flat(rows));
        } else {
            assert(flat(more) =~= flat(rows).push(c));
        }
    }
}

/// A text that begins like another one, and has no escape, is cleaned to what begins like it.
proof fn lemma_cleaned_prefix(a: Seq<char>, b: Seq<char>)
    requires
        !a.contains('\x1b'),
    ensures
        cleaned(a + b) == cleaned(a) + cleaned(b),
    decreases a.len(),
{
    if a.len() == 0 {
        assert(a + b =~= b);
        assert(cleaned(a) + cleaned(b) =~= cleaned(b));
    } else {
        assert(a[0] == (a + b)[0]);
        assert(a.contains(a[0]));
        assert((a + b).skip(1) =~= a.skip(1) + b);
        assert forall|c: char| a.skip(1).contains(c) implies a.contains(c) by {
            let i = choose|i: int| 0 <= i < a.skip(1).len() && a.skip(1)[i] == c;
            assert(a[i + 1] == c);
        }
        lemma_cleaned_prefix(a.skip(1), b);
        assert(plain(a[0]) + (cleaned(a.skip(1)) + cleaned(b)) =~= cleaned(a) + cleaned(b));
    }
}

/// Whether rows begin like others: all but the last are the same, and the last begins like the one in
/// its place.
pub open spec fn begins(start: Seq<Seq<char>>, rows: Seq<Seq<char>>) -> bool {
    &&& 0 < start.len() <= rows.len()
    &&& forall|i: int| 0 <= i < start.len() - 1 ==> #[trigger] rows[i] == start[i]
    &&& start.last().is_prefix_of(rows[start.len() - 1])
}

proof fn lemma_filled_prefix(a: Seq<char>, b: Seq<char>, width: nat)
    ensures
        begins(filled(a, width), filled(a + b, width)),
    decreases b.len(),
{
    lemma_filled_nonempty(a, width);
    if b.len() == 0 {
        assert(a + b =~= a);
    } else {
        lemma_filled_prefix(a, b.drop_last(), width);
        assert((a + b).drop_last() =~= a + b.drop_last());
        assert((a + b).last() == b.last());
        let start = filled(a, width);
        let rows = filled(a + b.drop_last(), width);
        let more = filled(a + b, width);
        let n = start.len() as int;
        assert(more == with_char(rows, b.last(), width));
        assert forall|i: int| 0 <= i < n - 1 implies #[trigger] more[i] == start[i] by {
            assert(rows[i] == start[i]);
            assert(more[i] == rows[i]);
        }
        if n < rows.len() || more.len() > rows.len() {
            assert(more[n - 1] == rows[n - 1]);
        } else {
            assert(more[n - 1] == rows[n - 1].push(b.last()));
            assert(rows[n - 1].is_prefix_of(more[n - 1]));
            assert forall|k: int| 0 <= k < start.last().len() implies more[n - 1][k]
                == start.last()[k] by {
                assert(start.last()[k] == rows[n - 1].subrange(0, start.last().len() as int)[k]);
            }
            assert(start.last() =~= more[n - 1].subrange(0, start.last().len() as int));
        }
    }
}

/// The rows of what stands before the cursor are the rows of the whole text up to there: all but the
/// last are the same, and the last begins the one in its place. That holds of every text without
/// escapes.
pub proof fn rows_before_the_cursor_agree(text: Seq<char>, k: int, width: nat)
    requires
        !text.contains('\x1b'),
        0 <= k <= text.len(),
    ensures
        begins(wrapped(text.take(k), width), wrapped(text, width)),
{
    let a = text.take(k);
    let b = text.skip(k);
    assert(a + b =~= text);
    assert forall|c: char| a.contains(c) implies text.contains(c) by {
        let i = choose|i: int| 0 <= i < a.len() && a[i] == c;
        assert(text[i] == c);
    }
    lemma_cleaned_prefix(a, b);
    lemma_filled_prefix(
        cleaned(a),
        cleaned(b),
        if width == 0 {
            1
        } else {
            width
        },
    );
}

/// No row holds a control character.
pub proof fn rows_are_harmless(s: Seq<char>, width: nat, i: int, j: int)
    requires
        0 <= i < wrapped(s, width).len(),
        0 <= j < wrapped(s, width)[i].len(),
    ensures
        !control(wrapped(s, width)[i][j]),
{
    let limit = if width == 0 {
        1
    } else {
        width
    };
    clean_text_is_harmless(s);
    lemma_filled_harmless(cleaned(s), limit);
}

proof fn lemma_filled_harmless(s: Seq<char>, width: nat)
    requires
        harmless(s),
    ensures
        forall|i: int, j: int|
            0 <= i < filled(s, width).len() && 0 <= j < filled(s, width)[i].len() ==> !control(
                #[trigger] filled(s, width)[i][j],
            ),
    decreases s.len(),
{
    if s.len() > 0 {
        let rows = filled(s.drop_last(), width);
        assert forall|i: int| 0 <= i < s.drop_last().len() implies (#[trigger] s.drop_last()[i])
            == '\n' || !control(s.drop_last()[i]) by {
            assert(s.drop_last()[i] == s[i]);
        }
        lemma_filled_harmless(s.drop_last(), width);
        lemma_filled_nonempty(s.drop_last(), width);
        let c = s.last();
        assert(c == s[s.len() - 1]);
        let more = filled(s, width);
        assert forall|i: int, j: int| 0 <= i < more.len() && 0 <= j < more[i].len() implies !control(
            #[trigger] more[i][j],
        ) by {
            if i < rows.len() - 1 {
                assert(more[i] == rows[i]);
                assert(!control(rows[i][j]));
            } else if i < rows.len() && j < rows[i].len() {
                assert(more[i][j] == rows[i][j]);
            }
        }
    }
}

// ---------------------------------------------------------------------------
// Rows of the conversation
// ---------------------------------------------------------------------------

/// The colours in which labels are shown.
#[derive(Clone, Copy, Debug, PartialEq, Eq, Structural)]
pub enum Tint {
    Cyan,
    Green,
    DarkGray,
    Yellow,
}

/// The colour of the label of an entry.
pub open spec fn tint_of(kind: Kind) -> Tint {
    match kind {
        Kind::User => Tint::Cyan,
        Kind::Answer => Tint::Green,
        Kind::Activity => Tint::DarkGray,
        Kind::Notice => Tint::Yellow,
    }
}

/// The colour of the label of an entry.
pub fn tint(kind: Kind) -> (r: Tint)
    ensures
        r == tint_of(kind),
{
    match kind {
        Kind::User => Tint::Cyan,
        Kind::Answer => Tint::Green,
        Kind::Activity => Tint::DarkGray,
        Kind::Notice => Tint::Yellow,
    }
}

/// One row of the conversation: a label in its colour, or plain text. It is known by its entry
/// and by its place among the rows of that entry.
#[derive(Debug)]
pub struct Row {
    pub item: usize,
    pub line: usize,
    pub text: String,
    pub tint: Option<Tint>,
}

/// What a row holds.
#[verifier::ext_equal]
pub struct RowView {
    pub item: int,
    pub line: int,
    pub text: Seq<char>,
    pub tint: Option<Tint>,
}

impl Row {
    /// What the row holds.
    pub open spec fn view(&self) -> RowView {
        RowView {
            item: self.item as int,
            line: self.line as int,
            text: self.text@,
            tint: self.tint,
        }
    }
}

impl Clone for Row {
    /// A row that holds the same.
    fn clone(&self) -> (r: Row)
        ensures
            r@ == self@,
    {
        Row { item: self.item, line: self.line, text: self.text.clone(), tint: self.tint }
    }
}

/// What a sequence of rows holds.
pub open spec fn shown_rows(rows: Seq<Row>) -> Seq<RowView> {
    rows.map_values(|row: Row| row@)
}

/// The rows of an entry: its label, its wrapped text, and an empty row.
pub open spec fn entry_rows(item: int, entry: EntryView, width: nat) -> Seq<RowView> {
    let lines = wrapped(entry.text, width);
    seq![
        RowView {
            item,
            line: 0,
            text: cleaned(entry.label),
            tint: Some(tint_of(entry.kind)),
        },
    ] + Seq::new(
        lines.len(),
        |i: int| RowView { item, line: i + 1, text: lines[i], tint: None },
    ) + seq![RowView { item, line: usize::MAX as int, text: Seq::empty(), tint: None }]
}

/// The rows of a sequence of entries, without those of hidden activity.
pub open spec fn layout(entries: Seq<EntryView>, width: nat, expanded: bool) -> Seq<RowView>
    decreases entries.len(),
{
    if entries.len() == 0 {
        Seq::empty()
    } else {
        let earlier = layout(entries.drop_last(), width, expanded);
        if !expanded && entries.last().kind == Kind::Activity {
            earlier
        } else {
            earlier + entry_rows(entries.len() - 1, entries.last(), width)
        }
    }
}

/// Adds the rows of an entry.
fn push_entry(rows: &mut Vec<Row>, item: usize, entry: &Entry, width: usize)
    ensures
        shown_rows(final(rows)@) == shown_rows(old(rows)@) + entry_rows(
            item as int,
            entry@,
            width as nat,
        ),
{
    let ghost start = shown_rows(rows@);
    let ghost lines = wrapped(entry@.text, width as nat);
    let ghost target = entry_rows(item as int, entry@, width as nat);
    rows.push(
        Row { item, line: 0, text: clean(entry.label.as_str()), tint: Some(tint(entry.kind)) },
    );
    let wrapped_text = wrap(entry.text.as_str(), width);
    assert(shown_rows(rows@) =~= start + target.take(1));
    for number in 0..wrapped_text.len()
        invariant
            lines == texts(wrapped_text@),
            lines == wrapped(entry@.text, width as nat),
            target == entry_rows(item as int, entry@, width as nat),
            shown_rows(rows@) == start + target.take(number + 1),
    {
        let ghost before = rows@;
        rows.push(Row { item, line: number + 1, text: wrapped_text[number].clone(), tint: None });
        proof {
            assert(lines[number as int] == wrapped_text@[number as int]@);
            assert(target[number + 1] == rows@.last()@);
            assert(target.take(number + 2) =~= target.take(number + 1).push(target[number + 1]));
            assert(shown_rows(rows@) =~= shown_rows(before).push(rows@.last()@));
            assert(shown_rows(rows@) =~= start + target.take(number + 2));
        }
    }
    let ghost before = rows@;
    rows.push(Row { item, line: usize::MAX, text: String::new(), tint: None });
    proof {
        assert(target.len() == lines.len() + 2);
        assert(target.last() == rows@.last()@);
        assert(target =~= target.take((lines.len() + 1) as int).push(target.last()));
        assert(shown_rows(rows@) =~= shown_rows(before).push(rows@.last()@));
        assert(shown_rows(rows@) =~= start + target);
    }
}

// ---------------------------------------------------------------------------
// The view
// ---------------------------------------------------------------------------

/// The rows that a conversation was laid out in, and the one that the screen is held at. Nothing
/// outside of this module can set them.
pub struct Place {
    // Item + wrapped line, so streamed output below the viewport cannot move it.
    anchor: Option<(usize, usize)>,
    rows: Vec<Row>,
    cache_key: Option<(u64, u16, bool)>,
}

/// What a place holds.
#[verifier::ext_equal]
pub struct PlaceView {
    pub anchor: Option<(int, int)>,
    pub rows: Seq<RowView>,
    pub cache: Option<(u64, u16, bool)>,
}

impl Place {
    /// What the place holds.
    pub closed spec fn view(&self) -> PlaceView {
        PlaceView {
            anchor: match self.anchor {
                Some(anchor) => Some((anchor.0 as int, anchor.1 as int)),
                None => None,
            },
            rows: shown_rows(self.rows@),
            cache: self.cache_key,
        }
    }
}

/// The part of the conversation that is on the screen.
pub struct View {
    pub expanded: bool,
    pub place: Place,
    pub height: usize,
}

/// What a view holds.
#[verifier::ext_equal]
pub struct ViewState {
    pub expanded: bool,
    pub anchor: Option<(int, int)>,
    pub rows: Seq<RowView>,
    pub cache: Option<(u64, u16, bool)>,
    pub height: nat,
}

/// Whether a row is the anchored one or stands behind it.
pub open spec fn reaches(row: RowView, anchor: (int, int)) -> bool {
    row.item > anchor.0 || (row.item == anchor.0 && row.line >= anchor.1)
}

/// The first of the rows from `from` on that reaches an anchor, or the number of rows.
pub open spec fn first_reaching(rows: Seq<RowView>, anchor: (int, int), from: int) -> int
    decreases rows.len() - from,
{
    if from >= rows.len() {
        rows.len() as int
    } else if reaches(rows[from], anchor) {
        from
    } else {
        first_reaching(rows, anchor, from + 1)
    }
}

impl ViewState {
    /// The row at the top of the screen that has the last row at its bottom.
    pub open spec fn bottom(self) -> int {
        if self.rows.len() > self.height {
            self.rows.len() - self.height
        } else {
            0
        }
    }

    /// The row at the top of the screen.
    pub open spec fn top(self) -> int {
        match self.anchor {
            None => self.bottom(),
            Some(anchor) => {
                let first = first_reaching(self.rows, anchor, 0);
                if first < self.rows.len() {
                    first
                } else {
                    self.bottom()
                }
            },
        }
    }

    /// The row at the top of the screen after scrolling.
    pub open spec fn target(self, by: int) -> int {
        if self.top() + by < 0 {
            0
        } else if self.top() + by > self.bottom() {
            self.bottom()
        } else {
            self.top() + by
        }
    }

    /// After scrolling by a number of rows.
    pub open spec fn scrolled(self, by: int) -> ViewState {
        let target = self.target(by);
        ViewState {
            anchor: if target < self.rows.len() {
                Some((self.rows[target].item, self.rows[target].line))
            } else {
                None
            },
            ..self
        }
    }

    /// Scrolled to the first row.
    pub open spec fn at_home(self) -> ViewState {
        ViewState { anchor: Some((0, 0)), ..self }
    }

    /// Scrolled to the last rows, and staying with them.
    pub open spec fn at_end(self) -> ViewState {
        ViewState { anchor: None, ..self }
    }

    /// With activity shown, or hidden again.
    pub open spec fn toggled(self) -> ViewState {
        ViewState { expanded: !self.expanded, ..self }
    }

    /// With the rows of a conversation, laid out anew unless nothing has changed.
    pub open spec fn laid_out(self, c: ConversationView, width: u16) -> ViewState {
        let key = (c.revision, width, self.expanded);
        if self.cache == Some(key) {
            self
        } else {
            ViewState {
                rows: layout(c.entries, width as nat, self.expanded),
                cache: Some(key),
                ..self
            }
        }
    }
}

impl View {
    /// What the view holds.
    pub open spec fn view(&self) -> ViewState {
        ViewState {
            expanded: self.expanded,
            anchor: self.place@.anchor,
            rows: self.place@.rows,
            cache: self.place@.cache,
            height: self.height as nat,
        }
    }

    /// Lays the conversation out, unless nothing has changed.
    fn rows(&mut self, conversation: &Conversation, width: u16)
        ensures
            final(self)@ == old(self)@.laid_out(conversation@, width),
    {
        let revision = conversation.revision;
        let unchanged = match self.place.cache_key {
            Some(key) => key.0 == revision && key.1 == width && key.2 == self.expanded,
            None => false,
        };
        if unchanged {
            return;
        }
        let mut rows: Vec<Row> = Vec::new();
        let ghost all = conversation@.entries;
        let ghost expanded = self.expanded;
        assert(all.take(0) =~= Seq::empty());
        assert(shown_rows(rows@) =~= Seq::empty());
        let count = conversation.entries.len();
        for index in 0..count
            invariant
                count == all.len(),
                all == conversation@.entries,
                self.expanded == expanded,
                shown_rows(rows@) == layout(all.take(index as int), width as nat, expanded),
        {
            let entry = &conversation.entries[index];
            assert(all.take(index + 1).drop_last() =~= all.take(index as int));
            assert(all.take(index + 1).last() == entry@);
            if self.expanded || entry.kind != Kind::Activity {
                push_entry(&mut rows, index, entry, width as usize);
            }
        }
        assert(all.take(all.len() as int) =~= all);
        self.place.cache_key = Some((revision, width, self.expanded));
        self.place.rows = rows;
    }

    /// The row at the top of the screen.
    pub fn top(&self) -> (r: usize)
        ensures
            r == self@.top(),
    {
        let bottom = self.place.rows.len().saturating_sub(self.height);
        match self.place.anchor {
            None => bottom,
            Some((item, line)) => {
                let ghost anchor = (item as int, line as int);
                for i in 0..self.place.rows.len()
                    invariant
                        anchor == (item as int, line as int),
                        first_reaching(self@.rows, anchor, 0) == first_reaching(
                            self@.rows,
                            anchor,
                            i as int,
                        ),
                        self@.anchor == Some(anchor),
                {
                    let row = &self.place.rows[i];
                    assert(self@.rows[i as int] == row@);
                    if row.item > item || (row.item == item && row.line >= line) {
                        return i;
                    }
                }
                bottom
            },
        }
    }

    /// Scrolls by a number of rows: up where it is negative.
    pub fn scroll(&mut self, by: isize)
        ensures
            final(self)@ == old(self)@.scrolled(by as int),
    {
        let top = self.top();
        let bottom = self.place.rows.len().saturating_sub(self.height);
        let moved: usize = if by >= 0 {
            top.saturating_add(by as usize)
        } else {
            let back: usize = ((-(by + 1)) as usize) + 1;
            top.saturating_sub(back)
        };
        let target: usize = if moved > bottom {
            bottom
        } else {
            moved
        };
        assert(target == self@.target(by as int));
        self.place.anchor = if target < self.place.rows.len() {
            assert(self@.rows[target as int] == self.place.rows@[target as int]@);
            Some((self.place.rows[target].item, self.place.rows[target].line))
        } else {
            None
        };
    }

    /// Scrolls to the first row.
    pub fn home(&mut self)
        ensures
            final(self)@ == old(self)@.at_home(),
    {
        self.place.anchor = Some((0, 0));
    }

    /// Scrolls to the last rows, and stays with them.
    pub fn end(&mut self)
        ensures
            final(self)@ == old(self)@.at_end(),
    {
        self.place.anchor = None;
    }

    /// Shows activity, or hides it.
    pub fn toggle(&mut self)
        ensures
            final(self)@ == old(self)@.toggled(),
    {
        self.expanded = !self.expanded;
    }
}

impl Default for View {
    /// A view that hides activity and stays with the last rows.
    fn default() -> (r: View)
        ensures
            r@ == (ViewState {
                expanded: false,
                anchor: None,
                rows: Seq::empty(),
                cache: None,
                height: 0,
            }),
    {
        let r = View {
            expanded: false,
            place: Place { anchor: None, rows: Vec::new(), cache_key: None },
            height: 0,
        };
        assert(r@.rows =~= Seq::empty());
        r
    }
}

// ---------------------------------------------------------------------------
// The screen as a whole
// ---------------------------------------------------------------------------

/// A rectangle of the screen.
#[derive(Clone, Copy, Debug, PartialEq, Eq, Structural)]
pub struct Area {
    pub x: u16,
    pub y: u16,
    pub width: u16,
    pub height: u16,
}

/// The three parts of the screen, from its top to its bottom.
#[derive(Clone, Copy, Debug, PartialEq, Eq, Structural)]
pub struct Regions {
    pub body: Area,
    pub banner: Area,
    pub input: Area,
}

/// The part of an area that begins `from` rows below its top and has `height` rows.
pub open spec fn slice_of(area: Area, from: int, height: int) -> Area {
    Area { x: area.x, y: (area.y + from) as u16, width: area.width, height: height as u16 }
}

/// An area in three parts: two of given heights at its bottom, and the rest above them.
pub open spec fn stacked(area: Area, banner: int, input: int) -> Regions {
    Regions {
        body: slice_of(area, 0, area.height - banner - input),
        banner: slice_of(area, area.height - banner - input, banner),
        input: slice_of(area, area.height - input, input),
    }
}

/// Whether the parts of an area follow each other from its top to its bottom, with nothing between them
/// and nothing left over.
pub open spec fn adjoin(area: Area, r: Regions) -> bool {
    &&& r.body == slice_of(area, 0, r.body.height as int)
    &&& r.banner == slice_of(area, r.body.height as int, r.banner.height as int)
    &&& r.input == slice_of(area, r.body.height + r.banner.height, r.input.height as int)
    &&& r.body.height + r.banner.height + r.input.height == area.height
}

/// How an area is divided into a part of at least `least` rows and two parts with given numbers of rows.
/// Where there is room for all, the first part has what the others leave. Where there is not, the first
/// has no more than its least number of rows, and at least one of the others has fewer than it should.
pub open spec fn divided(area: Area, least: int, banner: int, input: int, r: Regions) -> bool {
    &&& adjoin(area, r)
    &&& if least + banner + input <= area.height {
        r == stacked(area, banner, input)
    } else {
        &&& r.body.height == if least < area.height {
            least
        } else {
            area.height as int
        }
        &&& r.banner.height <= banner
        &&& r.input.height <= input
    }
}

/// `ratatui::layout::Layout::split` of a vertical layout with a least height, and then two fixed
/// ones. Every part is as wide as the area, and the parts follow each other without a gap. Where the
/// area has room for all three, the two at its bottom have just their heights and the first has the
/// rest. Where there is too little room, a least height comes before fixed ones and those before
/// any growth: the first part has its least height, as far as the area has it, and the others share
/// what is left, neither with more than its height. Which of the two then has fewer rows is left
/// unsaid: that is for its solver to choose.
#[verifier::external_body]
fn split_rows(area: Area, least: u16, banner: u16, input: u16) -> (r: Regions)
    ensures
        r.body.x == area.x && r.body.width == area.width,
        r.banner.x == area.x && r.banner.width == area.width,
        r.input.x == area.x && r.input.width == area.width,
        area.y + area.height <= u16::MAX && least <= i16::MAX ==> divided(
            area,
            least as int,
            banner as int,
            input as int,
            r,
        ),
{
    let whole = ratatui::layout::Rect { x: area.x, y: area.y, width: area.width, height: area.height };
    let parts: Vec<Area> = ratatui::layout::Layout::vertical([
        ratatui::layout::Constraint::Min(least),
        ratatui::layout::Constraint::Length(banner),
        ratatui::layout::Constraint::Length(input),
    ]).split(whole).iter().map(|r| Area { x: r.x, y: r.y, width: r.width, height: r.height }).collect();
    Regions { body: parts[0], banner: parts[1], input: parts[2] }
}

/// Whether three parts of the screen are those for an input box with a number of rows: the
/// conversation, which has a row at least, and one row between the two.
pub open spec fn screen_parts(area: Area, rows: int, r: Regions) -> bool {
    &&& r.body.x == area.x && r.body.width == area.width
    &&& r.banner.x == area.x && r.banner.width == area.width
    &&& r.input.x == area.x && r.input.width == area.width
    &&& area.y + area.height <= u16::MAX ==> divided(area, 1, 1, rows, r)
}

/// The sum of two coordinates, or the greatest coordinate where that is greater.
pub open spec fn clamped(a: int) -> int {
    if a > u16::MAX {
        u16::MAX as int
    } else {
        a
    }
}

/// What is left of a length without `part`.
pub open spec fn less(a: int, part: int) -> int {
    if a > part {
        a - part
    } else {
        0
    }
}

/// The inside of a border of one column and one row on each side.
pub open spec fn inside(area: Area) -> Area {
    Area {
        x: if area.width > 0 {
            clamped(area.x + 1) as u16
        } else {
            area.x
        },
        y: if area.height > 0 {
            clamped(area.y + 1) as u16
        } else {
            area.y
        },
        width: less(area.width as int, 2) as u16,
        height: less(area.height as int, 2) as u16,
    }
}

/// `ratatui::widgets::Block::inner` of a block with all four borders: the area without its outermost
/// columns and rows.
#[verifier::external_body]
fn inner_area(area: Area) -> (r: Area)
    ensures
        r == inside(area),
{
    let whole = ratatui::layout::Rect { x: area.x, y: area.y, width: area.width, height: area.height };
    let block = ratatui::widgets::Block::default().borders(ratatui::widgets::Borders::ALL);
    let inner = block.inner(whole);
    Area { x: inner.x, y: inner.y, width: inner.width, height: inner.height }
}

/// The box in which the user writes.
pub struct InputBox {
    pub title: String,
    pub area: Area,
    pub inner: Area,
    pub lines: Vec<String>,
    pub cursor: Option<(u16, u16)>,
}

/// What an input box holds.
#[verifier::ext_equal]
pub struct InputView {
    pub title: Seq<char>,
    pub area: Area,
    pub inner: Area,
    pub lines: Seq<Seq<char>>,
    pub cursor: Option<(u16, u16)>,
}

impl InputBox {
    /// What the box holds.
    pub open spec fn view(&self) -> InputView {
        InputView {
            title: self.title@,
            area: self.area,
            inner: self.inner,
            lines: texts(self.lines@),
            cursor: self.cursor,
        }
    }
}

/// The items from `from` on, at most `count` of them.
pub open spec fn window<A>(items: Seq<A>, from: int, count: int) -> Seq<A> {
    if from >= items.len() {
        Seq::empty()
    } else if from + count > items.len() {
        items.subrange(from, items.len() as int)
    } else {
        items.subrange(from, from + count)
    }
}

/// The input box for a text with a cursor at a byte offset: the box scrolls so that the row of
/// the cursor is on the screen.
pub open spec fn input_box(area: Area, input: Seq<char>, cursor: nat, answering: bool) -> InputView {
    let inner = inside(area);
    let width: nat = if inner.width == 0 {
        1
    } else {
        inner.width as nat
    };
    let before = wrapped(cut(input, cursor), width);
    let row = before.len() - 1;
    let column = row_width(before.last());
    let scroll = less(row, less(inner.height as int, 1));
    InputView {
        title: if answering {
            " Response required · Enter to answer "@
        } else {
            " Message · Enter send · Alt+Enter newline "@
        },
        area,
        inner,
        lines: window(wrapped(input, width), scroll, inner.height as int),
        cursor: if inner.width > 0 && inner.height > 0 {
            Some(
                (
                    clamped(
                        inner.x + if column > width - 1 {
                            width - 1
                        } else {
                            column as int
                        },
                    ) as u16,
                    clamped(inner.y + (row - scroll)) as u16,
                ),
            )
        } else {
            None
        },
    }
}

/// The columns of the last row of a text fit a machine word.
proof fn lemma_last_row(s: Seq<char>, width: nat)
    requires
        width <= usize::MAX,
    ensures
        wrapped(s, width).len() > 0,
        forall|k: int|
            0 <= k <= wrapped(s, width).last().len() ==> row_width(
                #[trigger] wrapped(s, width).last().take(k),
            ) <= usize::MAX,
{
    let limit: nat = if width == 0 {
        1
    } else {
        width
    };
    lemma_filled_nonempty(cleaned(s), limit);
    let last = wrapped(s, width).last();
    rows_fit(s, width, wrapped(s, width).len() - 1);
    assert forall|k: int| 0 <= k <= last.len() implies row_width(#[trigger] last.take(k))
        <= usize::MAX by {
        if last.len() <= 1 {
            lemma_short_row(last.take(k));
        } else {
            lemma_prefix_width(last, k);
        }
    }
}

proof fn lemma_short_row(row: Seq<char>)
    requires
        row.len() <= 1,
    ensures
        row_width(row) <= usize::MAX,
{
    reveal_with_fuel(row_width, 2);
}

proof fn lemma_prefix_width(row: Seq<char>, k: int)
    requires
        0 <= k <= row.len(),
    ensures
        row_width(row.take(k)) <= row_width(row),
    decreases row.len(),
{
    if k == row.len() {
        assert(row.take(k) =~= row);
    } else {
        lemma_prefix_width(row.drop_last(), k);
        assert(row.drop_last().take(k) =~= row.take(k));
    }
}

/// How many columns the last row of a wrapped text takes.
fn last_width(row: &String, Ghost(s): Ghost<Seq<char>>, Ghost(width): Ghost<nat>) -> (r: usize)
    requires
        width <= usize::MAX,
        row@ == wrapped(s, width).last(),
    ensures
        r == row_width(row@),
{
    let chars = characters(row.as_str());
    let mut total: usize = 0;
    assert(chars@.take(0) =~= Seq::empty());
    for i in 0..chars.len()
        invariant
            width <= usize::MAX,
            chars@ == wrapped(s, width).last(),
            total == row_width(chars@.take(i as int)),
    {
        proof {
            lemma_last_row(s, width);
            assert(chars@.take(i + 1).drop_last() =~= chars@.take(i as int));
            assert(row_width(chars@.take(i + 1)) <= usize::MAX);
        }
        total = total + count_columns(chars[i]);
    }
    assert(chars@.take(chars@.len() as int) =~= chars@);
    total
}

/// The rows from `from` on, at most `count` of them.
fn window_of(rows: Vec<String>, from: usize, count: usize) -> (r: Vec<String>)
    ensures
        texts(r@) == window(texts(rows@), from as int, count as int),
{
    let mut r: Vec<String> = Vec::new();
    let mut i: usize = from;
    let ghost all = texts(rows@);
    while i < rows.len() && r.len() < count
        invariant
            all == texts(rows@),
            from <= i,
            i == from + r.len(),
            r.len() <= count,
            from < rows.len() ==> i <= rows.len(),
            from >= rows.len() ==> r.len() == 0,
            from <= all.len() ==> texts(r@) == all.subrange(from as int, i as int),
        decreases rows.len() - i,
    {
        let ghost before = texts(r@);
        r.push(rows[i].clone());
        assert(texts(r@) =~= before.push(all[i as int]));
        assert(all.subrange(from as int, i + 1) =~= all.subrange(from as int, i as int).push(
            all[i as int],
        ));
        i = i + 1;
    }
    assert(texts(r@) =~= window(all, from as int, count as int));
    r
}

/// The input box for a text with a cursor at a byte offset.
pub fn draw_input(area: Area, input: &str, cursor: usize, answering: bool) -> (r: InputBox)
    requires
        at_boundary(input@, cursor as nat),
    ensures
        r@ == input_box(area, input@, cursor as nat, answering),
{
    let title = if answering {
        " Response required · Enter to answer "
    } else {
        " Message · Enter send · Alt+Enter newline "
    };
    let inner = inner_area(area);
    let width: usize = if inner.width == 0 {
        1
    } else {
        inner.width as usize
    };
    let rows = wrap(input, width);
    let chars = characters(input);
    let end = chars_within(&chars, cursor);
    let start = gather(&chars, 0, end);
    assert(chars@.subrange(0, end as int) =~= chars@.take(end as int));
    let prefix = wrap(start.as_str(), width);
    let row: usize = prefix.len() - 1;
    assert(texts(prefix@)[row as int] == prefix@[row as int]@);
    let column = last_width(&prefix[row], Ghost(start@), Ghost(width as nat));
    let scroll = row.saturating_sub(inner.height.saturating_sub(1) as usize);
    let lines = window_of(rows, scroll, inner.height as usize);
    let cursor = if inner.width > 0 && inner.height > 0 {
        let across: usize = if column > width - 1 {
            width - 1
        } else {
            column
        };
        let down: usize = row - scroll;
        Some((inner.x.saturating_add(across as u16), inner.y.saturating_add(down as u16)))
    } else {
        None
    };
    InputBox { title: title.to_owned(), area, inner, lines, cursor }
}

/// Everything that the screen shows.
pub struct Scene {
    pub title: String,
    pub area: Area,
    pub inner: Area,
    pub lines: Vec<Row>,
    pub banner_area: Area,
    pub banner: String,
    pub input: InputBox,
}

/// What a scene holds.
#[verifier::ext_equal]
pub struct SceneView {
    pub title: Seq<char>,
    pub area: Area,
    pub inner: Area,
    pub lines: Seq<RowView>,
    pub banner_area: Area,
    pub banner: Seq<char>,
    pub input: InputView,
}

impl Scene {
    /// What the scene holds.
    pub open spec fn view(&self) -> SceneView {
        SceneView {
            title: self.title@,
            area: self.area,
            inner: self.inner,
            lines: shown_rows(self.lines@),
            banner_area: self.banner_area,
            banner: self.banner@,
            input: self.input@,
        }
    }
}

/// How many rows the input box takes, its border with it.
pub open spec fn input_height(input: Seq<char>) -> int {
    let lines = if line_count(input) == 0 {
        1
    } else {
        line_count(input) as int
    };
    if lines + 2 > 6 {
        6
    } else {
        lines + 2
    }
}

/// The line of text between the conversation and the input box.
pub open spec fn banner_text(status: Seq<char>, hidden: nat, expanded: bool) -> Seq<char> {
    cleaned(
        " "@ + status + " · "@ + decimal(hidden) + " activity items · Ctrl+O "@ + (if expanded {
            "hide"@
        } else {
            "show"@
        }) + " · PgUp/PgDn scroll · /help"@,
    )
}

impl ViewState {
    /// With the conversation laid out for the body of the screen.
    pub open spec fn placed(self, regions: Regions, c: ConversationView) -> ViewState {
        let inner = inside(regions.body);
        ViewState { height: inner.height as nat, ..self }.laid_out(c, inner.width)
    }

    /// The scene, once the conversation is laid out for the body of the screen.
    pub open spec fn scene(
        self,
        regions: Regions,
        c: ConversationView,
        status: Seq<char>,
        input: Seq<char>,
        cursor: nat,
        answering: bool,
    ) -> SceneView {
        SceneView {
            title: if self.expanded {
                " Codex Silent · activity shown "@
            } else {
                " Codex Silent · answers only "@
            },
            area: regions.body,
            inner: inside(regions.body),
            lines: window(self.rows, self.top(), self.height as int),
            banner_area: regions.banner,
            banner: banner_text(status, c.hidden(), self.expanded),
            input: input_box(regions.input, input, cursor, answering),
        }
    }
}

/// How many rows the input box takes, its border with it.
fn count_input_rows(input: &str) -> (r: u16)
    ensures
        r == input_height(input@),
{
    let lines = count_lines(input);
    if lines <= 1 {
        3
    } else if lines >= 4 {
        6
    } else {
        lines as u16 + 2
    }
}

/// The line of text between the conversation and the input box.
fn banner(status: &str, hidden: usize, expanded: bool) -> (r: String)
    ensures
        r@ == banner_text(status@, hidden as nat, expanded),
{
    let mut text = " ".to_owned();
    text.append(status);
    text.append(" · ");
    text.append(to_decimal(hidden as u128).as_str());
    text.append(" activity items · Ctrl+O ");
    if expanded {
        text.append("hide");
    } else {
        text.append("show");
    }
    text.append(" · PgUp/PgDn scroll · /help");
    clean(text.as_str())
}

impl View {
    /// The rows that are on the screen.
    fn visible_rows(&self) -> (r: Vec<Row>)
        ensures
            shown_rows(r@) == window(self@.rows, self@.top(), self@.height as int),
    {
        let top = self.top();
        let mut r: Vec<Row> = Vec::new();
        let mut i: usize = top;
        let ghost all = self@.rows;
        proof {
            lemma_first_bounds(self@);
        }
        while i < self.place.rows.len() && r.len() < self.height
            invariant
                all == self@.rows,
                top <= i <= self.place.rows.len(),
                i == top + r.len(),
                r.len() <= self.height,
                shown_rows(r@) == all.subrange(top as int, i as int),
            decreases self.place.rows.len() - i,
        {
            let ghost before = shown_rows(r@);
            r.push(self.place.rows[i].clone());
            assert(all[i as int] == self.place.rows@[i as int]@);
            assert(shown_rows(r@) =~= before.push(all[i as int]));
            assert(all.subrange(top as int, i + 1) =~= all.subrange(top as int, i as int).push(
                all[i as int],
            ));
            i = i + 1;
        }
        assert(shown_rows(r@) =~= window(all, top as int, self@.height as int));
        r
    }

    /// The scene for given parts of the screen.
    pub fn compose(
        &mut self,
        regions: Regions,
        conversation: &Conversation,
        status: &str,
        input: &str,
        cursor: usize,
        pending: Option<&str>,
    ) -> (r: Scene)
        requires
            at_boundary(input@, cursor as nat),
        ensures
            final(self)@ == old(self)@.placed(regions, conversation@),
            r@ == final(self)@.scene(
                regions,
                conversation@,
                status@,
                input@,
                cursor as nat,
                pending is Some,
            ),
    {
        let title = if self.expanded {
            " Codex Silent · activity shown "
        } else {
            " Codex Silent · answers only "
        };
        let inner = inner_area(regions.body);
        self.height = inner.height as usize;
        self.rows(conversation, inner.width);
        Scene {
            title: title.to_owned(),
            area: regions.body,
            inner,
            lines: self.visible_rows(),
            banner_area: regions.banner,
            banner: banner(status, conversation.hidden_count(), self.expanded),
            input: draw_input(regions.input, input, cursor, pending.is_some()),
        }
    }

    /// The scene for a screen of a given size.
    pub fn draw(
        &mut self,
        area: Area,
        conversation: &Conversation,
        status: &str,
        input: &str,
        cursor: usize,
        pending: Option<&str>,
    ) -> (r: Scene)
        requires
            at_boundary(input@, cursor as nat),
        ensures
            exists|regions: Regions|
                #![trigger old(self)@.placed(regions, conversation@)]
                {
                    &&& screen_parts(area, input_height(input@), regions)
                    &&& final(self)@ == old(self)@.placed(regions, conversation@)
                    &&& r@ == final(self)@.scene(
                        regions,
                        conversation@,
                        status@,
                        input@,
                        cursor as nat,
                        pending is Some,
                    )
                },
    {
        let regions = split_rows(area, 1, 1, count_input_rows(input));
        self.compose(regions, conversation, status, input, cursor, pending)
    }
}

/// The row at the top of the screen is one of the rows, or just behind them.
proof fn lemma_first_bounds(v: ViewState)
    ensures
        0 <= v.top() <= v.rows.len(),
{
    if let Some(anchor) = v.anchor {
        lemma_first_reaching(v.rows, anchor, 0);
    }
}

proof fn lemma_first_reaching(rows: Seq<RowView>, anchor: (int, int), from: int)
    requires
        0 <= from <= rows.len(),
    ensures
        from <= first_reaching(rows, anchor, from) <= rows.len(),
        first_reaching(rows, anchor, from) < rows.len() ==> reaches(
            rows[first_reaching(rows, anchor, from)],
            anchor,
        ),
        forall|i: int|
            from <= i < first_reaching(rows, anchor, from) ==> !reaches(#[trigger] rows[i], anchor),
    decreases rows.len() - from,
{
    if from < rows.len() && !reaches(rows[from], anchor) {
        lemma_first_reaching(rows, anchor, from + 1);
    }
}

// ---------------------------------------------------------------------------
// Laws of the view
// ---------------------------------------------------------------------------

/// Whether the rows of a view are those of a conversation, as far as the view takes them to be.
pub open spec fn follows(v: ViewState, c: ConversationView) -> bool {
    match v.cache {
        Some((revision, width, expanded)) => revision == c.revision ==> v.rows == layout(
            c.entries,
            width as nat,
            expanded,
        ),
        None => true,
    }
}

/// What is drawn is the conversation as it is, whether it was laid out anew or not.
pub proof fn drawing_shows_the_conversation(v: ViewState, regions: Regions, c: ConversationView)
    requires
        follows(v, c),
    ensures
        v.placed(regions, c).rows == layout(
            c.entries,
            inside(regions.body).width as nat,
            v.expanded,
        ),
        v.placed(regions, c).expanded == v.expanded,
        v.placed(regions, c).anchor == v.anchor,
        follows(v.placed(regions, c), c),
{
}

/// No change goes unnoticed: after a drawing, the next one shows the conversation as it is then, as
/// long as whatever has changed it has changed its revision.
pub proof fn drawing_follows_every_change(
    v: ViewState,
    regions: Regions,
    c: ConversationView,
    later: ConversationView,
)
    requires
        follows(v, c),
        later == c || later.revision != c.revision,
    ensures
        follows(v.placed(regions, c), later),
{
}

/// No message goes unnoticed: after a drawing, the next one shows the conversation as the messages
/// in between have left it.
pub proof fn drawing_is_never_stale(
    v: ViewState,
    regions: Regions,
    c: ConversationView,
    messages: Seq<JsonView>,
)
    requires
        follows(v, c),
        messages.len() < 0x1_0000_0000_0000_0000,
    ensures
        follows(v.placed(regions, c), after_all(c, messages)),
{
    let changes = lemma_changes(c, messages);
    let later = after_all(c, messages);
    if later.revision == c.revision {
        assert(changes == 0);
    }
}

proof fn lemma_changes(c: ConversationView, messages: Seq<JsonView>) -> (changes: nat)
    ensures
        changes <= messages.len(),
        after_all(c, messages).revision == (c.revision + changes) % 0x1_0000_0000_0000_0000,
        changes == 0 ==> after_all(c, messages) == c,
    decreases messages.len(),
{
    if messages.len() == 0 {
        0
    } else {
        let before = lemma_changes(c, messages.drop_last());
        let earlier = after_all(c, messages.drop_last());
        if earlier.after(messages.last()) == earlier {
            before
        } else {
            before + 1
        }
    }
}

/// Unless activity is shown, no row of activity is laid out.
pub proof fn hidden_activity_has_no_rows(entries: Seq<EntryView>, width: nat, i: int)
    requires
        0 <= i < layout(entries, width, false).len(),
    ensures
        0 <= layout(entries, width, false)[i].item < entries.len(),
        entries[layout(entries, width, false)[i].item].kind != Kind::Activity,
    decreases entries.len(),
{
    if entries.len() > 0 {
        let earlier = layout(entries.drop_last(), width, false);
        if i < earlier.len() {
            hidden_activity_has_no_rows(entries.drop_last(), width, i);
        }
    }
}

/// Showing activity and hiding it again leaves the view as it was.
pub proof fn toggling_twice_changes_nothing(v: ViewState)
    ensures
        v.toggled().toggled() == v,
{
}

/// Rows stand in order: by entry, and by place within the entry.
pub open spec fn ordered(rows: Seq<RowView>) -> bool {
    forall|i: int, j: int|
        0 <= i < j < rows.len() ==> !reaches(
            #[trigger] rows[i],
            ((#[trigger] rows[j]).item, rows[j].line),
        )
}

/// The rows that are laid out stand in order.
pub proof fn rows_are_ordered(entries: Seq<EntryView>, width: nat, expanded: bool)
    requires
        layout(entries, width, expanded).len() <= usize::MAX,
    ensures
        ordered(layout(entries, width, expanded)),
        forall|i: int|
            0 <= i < layout(entries, width, expanded).len() ==> 0 <= (#[trigger] layout(
                entries,
                width,
                expanded,
            )[i]).item < entries.len(),
    decreases entries.len(),
{
    if entries.len() > 0 {
        let rows = layout(entries, width, expanded);
        let earlier = layout(entries.drop_last(), width, expanded);
        rows_are_ordered(entries.drop_last(), width, expanded);
        if rows != earlier {
            let more = entry_rows(entries.len() - 1, entries.last(), width);
            assert(rows == earlier + more);
            assert forall|i: int| 0 <= i < rows.len() implies 0 <= (#[trigger] rows[i]).item
                < entries.len() by {
                if i < earlier.len() {
                    assert(rows[i] == earlier[i]);
                } else {
                    assert(rows[i] == more[i - earlier.len()]);
                }
            }
            assert forall|i: int, j: int| 0 <= i < j < rows.len() implies !reaches(
                #[trigger] rows[i],
                ((#[trigger] rows[j]).item, rows[j].line),
            ) by {
                if j < earlier.len() {
                    assert(rows[i] == earlier[i] && rows[j] == earlier[j]);
                } else if i < earlier.len() {
                    assert(rows[i] == earlier[i] && rows[j] == more[j - earlier.len()]);
                } else {
                    assert(rows[i] == more[i - earlier.len()] && rows[j] == more[j
                        - earlier.len()]);
                }
            }
        }
    }
}

/// Scrolling puts the row it was aimed at to the top of the screen.
pub proof fn scrolling_lands_on_its_target(v: ViewState, by: int)
    requires
        ordered(v.rows),
    ensures
        v.scrolled(by).top() == v.target(by),
        0 <= v.target(by) <= v.bottom(),
{
    lemma_first_bounds(v);
    let t = v.target(by);
    if t < v.rows.len() {
        let anchor = (v.rows[t].item, v.rows[t].line);
        lemma_first_reaching(v.rows, anchor, 0);
        let first = first_reaching(v.rows, anchor, 0);
        if first < t {
            assert(reaches(v.rows[first], (v.rows[t].item, v.rows[t].line)));
        }
    }
}

/// Scrolling home shows the conversation from its first row on.
pub proof fn home_is_the_first_row(v: ViewState)
    requires
        v.rows.len() > 0,
        v.rows[0].item >= 0,
        v.rows[0].line >= 0,
    ensures
        v.at_home().top() == 0,
{
}

/// The parts of a screen lie inside of it, one above the other, without overlap.
pub proof fn parts_lie_inside_the_screen(area: Area, rows: int, r: Regions)
    requires
        area.y + area.height <= u16::MAX,
        screen_parts(area, rows, r),
    ensures
        r.body.y == area.y,
        r.banner.y == r.body.y + r.body.height,
        r.input.y == r.banner.y + r.banner.height,
        r.input.y + r.input.height == area.y + area.height,
{
}

/// The size of a screen and the number of rows of the input box say where the conversation is shown. It
/// has a row if the screen has one.
pub proof fn the_conversation_has_its_place(area: Area, rows: int, a: Regions, b: Regions)
    requires
        area.y + area.height <= u16::MAX,
        screen_parts(area, rows, a),
        screen_parts(area, rows, b),
    ensures
        a.body == b.body,
        rows >= 0 && area.height > 0 ==> a.body.height > 0,
{
}

/// Whether two sequences of entries differ in nothing but the labels, texts and details of activity.
pub open spec fn same_but_activity(a: Seq<EntryView>, b: Seq<EntryView>) -> bool {
    &&& a.len() == b.len()
    &&& forall|i: int|
        0 <= i < a.len() ==> (#[trigger] a[i]).kind == b[i].kind && (a[i].kind != Kind::Activity
            ==> a[i].label == b[i].label && a[i].text == b[i].text)
}

/// While activity is hidden nothing of it reaches the screen but how much of it there is: two
/// conversations that differ only in what their activity holds give the same scene.
pub proof fn hidden_activity_is_not_drawn(
    v: ViewState,
    w: ViewState,
    regions: Regions,
    c: ConversationView,
    d: ConversationView,
    status: Seq<char>,
    input: Seq<char>,
    cursor: nat,
    answering: bool,
)
    requires
        same_but_activity(c.entries, d.entries),
        follows(v, c),
        follows(w, d),
        !v.expanded,
        !w.expanded,
        v.anchor == w.anchor,
    ensures
        v.placed(regions, c).scene(regions, c, status, input, cursor, answering) == w.placed(
            regions,
            d,
        ).scene(regions, d, status, input, cursor, answering),
{
    drawing_shows_the_conversation(v, regions, c);
    drawing_shows_the_conversation(w, regions, d);
    lemma_same_layout(c.entries, d.entries, inside(regions.body).width as nat);
}

proof fn lemma_same_layout(a: Seq<EntryView>, b: Seq<EntryView>, width: nat)
    requires
        same_but_activity(a, b),
    ensures
        layout(a, width, false) == layout(b, width, false),
        a.filter(|e: EntryView| e.kind == Kind::Activity).len() == b.filter(
            |e: EntryView| e.kind == Kind::Activity,
        ).len(),
    decreases a.len(),
{
    reveal(Seq::filter);
    if a.len() > 0 {
        assert forall|i: int| 0 <= i < a.drop_last().len() implies (#[trigger] a.drop_last()[i]).kind
            == b.drop_last()[i].kind && (a.drop_last()[i].kind != Kind::Activity
            ==> a.drop_last()[i].label == b.drop_last()[i].label && a.drop_last()[i].text
            == b.drop_last()[i].text) by {
            assert(a.drop_last()[i] == a[i] && b.drop_last()[i] == b[i]);
        }
        lemma_same_layout(a.drop_last(), b.drop_last(), width);
        assert(a[a.len() - 1].kind == b[b.len() - 1].kind);
    }
}

/// Scrolling between two drawings of the same conversation in the same place: the second begins as many
/// rows further down as was scrolled, but not before the first row, and not after the one with which
/// the last rows fill the screen. Scrolled home it begins with the first row, and scrolled to the end
/// it shows the last rows.
pub proof fn scrolling_moves_the_next_drawing(
    v: ViewState,
    regions: Regions,
    again: Regions,
    c: ConversationView,
    by: int,
)
    requires
        follows(v, c),
        again.body == regions.body,
        layout(c.entries, inside(regions.body).width as nat, v.expanded).len() <= usize::MAX,
    ensures
        ({
            let drawn = v.placed(regions, c);
            let next = drawn.scrolled(by).placed(again, c);
            let last = less(drawn.rows.len() as int, drawn.height as int);
            let moved = drawn.top() + by;
            &&& next.rows == drawn.rows
            &&& next.height == drawn.height
            &&& next.top() == if moved < 0 {
                0
            } else if moved > last {
                last
            } else {
                moved
            }
            &&& drawn.at_home().placed(again, c).top() == 0
            &&& drawn.at_end().placed(again, c).top() == last
        }),
{
    let drawn = v.placed(regions, c);
    drawing_shows_the_conversation(v, regions, c);
    rows_are_ordered(c.entries, inside(regions.body).width as nat, v.expanded);
    scrolling_lands_on_its_target(drawn, by);
    assert(drawn.scrolled(by).placed(again, c) == drawn.scrolled(by));
    assert(drawn.at_home().placed(again, c) == drawn.at_home());
    assert(drawn.at_end().placed(again, c) == drawn.at_end());
    if drawn.rows.len() > 0 {
        lemma_lines_count(c.entries, inside(regions.body).width as nat, v.expanded);
        home_is_the_first_row(drawn);
    }
}

/// The places of rows within their entries are counted from zero on.
proof fn lemma_lines_count(entries: Seq<EntryView>, width: nat, expanded: bool)
    ensures
        forall|i: int|
            0 <= i < layout(entries, width, expanded).len() ==> (#[trigger] layout(
                entries,
                width,
                expanded,
            )[i]).line >= 0,
    decreases entries.len(),
{
    if entries.len() > 0 {
        lemma_lines_count(entries.drop_last(), width, expanded);
        let earlier = layout(entries.drop_last(), width, expanded);
        let rows = layout(entries, width, expanded);
        assert forall|i: int| 0 <= i < rows.len() implies (#[trigger] rows[i]).line >= 0 by {
            if i < earlier.len() {
                assert(rows[i] == earlier[i]);
            }
        }
    }
}

/// A screen that was scrolled stays where it is while entries behind its top row change or are
/// added: the rows up to the end of the entry at its top are the same, at the same places.
pub proof fn scrolling_stays_while_later_entries_change(
    before: Seq<EntryView>,
    after: Seq<EntryView>,
    item: int,
    width: nat,
    expanded: bool,
    v: ViewState,
    w: ViewState,
)
    requires
        0 <= item < before.len(),
        item < after.len(),
        before.take(item + 1) == after.take(item + 1),
        v.rows == layout(before, width, expanded),
        w.rows == layout(after, width, expanded),
        v.anchor == w.anchor,
        v.anchor is Some,
        exists|i: int|
            0 <= i < layout(before.take(item + 1), width, expanded).len() && reaches(
                #[trigger] layout(before.take(item + 1), width, expanded)[i],
                v.anchor->Some_0,
            ),
    ensures
        w.top() == v.top(),
        v.top() < layout(before.take(item + 1), width, expanded).len(),
        forall|i: int|
            0 <= i < layout(before.take(item + 1), width, expanded).len() ==> #[trigger] w.rows[i]
                == v.rows[i],
{
    let head = layout(before.take(item + 1), width, expanded);
    lemma_layout_prefix(before, item + 1, width, expanded);
    lemma_layout_prefix(after, item + 1, width, expanded);
    let anchor = v.anchor->Some_0;
    lemma_first_reaching(v.rows, anchor, 0);
    lemma_first_reaching(w.rows, anchor, 0);
    lemma_first_reaching(head, anchor, 0);
    let i = choose|i: int| 0 <= i < head.len() && reaches(#[trigger] head[i], anchor);
    assert forall|k: int| 0 <= k < head.len() implies v.rows[k] == #[trigger] head[k] && w.rows[k]
        == head[k] by {}
    let f = first_reaching(v.rows, anchor, 0);
    let g = first_reaching(w.rows, anchor, 0);
    assert(reaches(v.rows[i], anchor) && reaches(w.rows[i], anchor)) by {
        assert(reaches(head[i], anchor));
    }
    assert(f <= i && g <= i);
    if f < g {
        assert(reaches(head[f], anchor));
        assert(reaches(w.rows[f], anchor));
    }
    if g < f {
        assert(reaches(head[g], anchor));
        assert(reaches(v.rows[g], anchor));
    }
    assert forall|k: int| 0 <= k < head.len() implies #[trigger] w.rows[k] == v.rows[k] by {
        assert(v.rows[k] == head[k]);
    }
}

/// The rows of the first entries come first.
proof fn lemma_layout_prefix(entries: Seq<EntryView>, k: int, width: nat, expanded: bool)
    requires
        0 <= k <= entries.len(),
    ensures
        layout(entries.take(k), width, expanded).is_prefix_of(layout(entries, width, expanded)),
    decreases entries.len(),
{
    if k == entries.len() {
        assert(entries.take(k) =~= entries);
    } else {
        lemma_layout_prefix(entries.drop_last(), k, width, expanded);
        assert(entries.drop_last().take(k) =~= entries.take(k));
    }
}

/// The cursor is inside of the input box.
pub proof fn the_cursor_is_inside_the_box(
    area: Area,
    input: Seq<char>,
    cursor: nat,
    answering: bool,
)
    requires
        area.x + area.width <= u16::MAX,
        area.y + area.height <= u16::MAX,
        area.width > 2,
        area.height > 2,
    ensures
        ({
            let shown = input_box(area, input, cursor, answering);
            &&& shown.cursor is Some
            &&& shown.inner.x <= shown.cursor->Some_0.0 < shown.inner.x + shown.inner.width
            &&& shown.inner.y <= shown.cursor->Some_0.1 < shown.inner.y + shown.inner.height
        }),
{
    let inner = inside(area);
    lemma_filled_nonempty(cleaned(cut(input, cursor)), inner.width as nat);
}

/// The cursor stands in the row that what is before it ends with: the row of the box at the cursor begins
/// with that. It holds of every input without escapes.
pub proof fn the_cursor_stands_behind_its_text(
    area: Area,
    input: Seq<char>,
    cursor: nat,
    answering: bool,
)
    requires
        !input.contains('\x1b'),
        area.x + area.width <= u16::MAX,
        area.y + area.height <= u16::MAX,
        area.width > 2,
        area.height > 2,
    ensures
        ({
            let shown = input_box(area, input, cursor, answering);
            let row = shown.cursor->Some_0.1 - shown.inner.y;
            &&& shown.cursor is Some
            &&& 0 <= row < shown.lines.len()
            &&& wrapped(cut(input, cursor), shown.inner.width as nat).last().is_prefix_of(
                shown.lines[row],
            )
        }),
{
    let inner = inside(area);
    let width = inner.width as nat;
    let start = cut(input, cursor);
    lemma_split(input, cursor);
    assert(input.take(start.len() as int) =~= start);
    rows_before_the_cursor_agree(input, start.len() as int, width);
    let before = wrapped(start, width);
    let rows = wrapped(input, width);
    let row = before.len() - 1;
    let scroll = less(row, less(inner.height as int, 1));
    let shown = input_box(area, input, cursor, answering);
    assert(shown.lines == window(rows, scroll, inner.height as int));
    assert(shown.lines[row - scroll] == rows[row]);
}

/// No more rows are shown than the screen has.
pub proof fn shown_rows_fit_the_screen(
    v: ViewState,
    regions: Regions,
    c: ConversationView,
    status: Seq<char>,
    input: Seq<char>,
    cursor: nat,
    answering: bool,
)
    requires
        v.height == inside(regions.body).height,
    ensures
        v.scene(regions, c, status, input, cursor, answering).lines.len() <= inside(
            regions.body,
        ).height,
        v.scene(regions, c, status, input, cursor, answering).input.lines.len() <= inside(
            regions.input,
        ).height,
{
    lemma_first_bounds(v);
}

// ---------------------------------------------------------------------------
// What reaches the screen
// ---------------------------------------------------------------------------

/// Text without an escape is cleaned by itself, whatever follows it: each of its characters stays as it is,
/// but a tab is four spaces, and any other control character than the line feed is gone.
pub proof fn text_before_an_escape_is_cleaned_by_itself(a: Seq<char>, b: Seq<char>, c: char)
    requires
        !a.contains('\x1b'),
        c != '\x1b',
    ensures
        cleaned(a + b) == cleaned(a) + cleaned(b),
        cleaned(seq![c] + b) == (if c == '\t' {
            seq![' ', ' ', ' ', ' ']
        } else if (c as int) < 0x20 && c != '\n' || 0x7f <= c as int <= 0x9f {
            Seq::empty()
        } else {
            seq![c]
        }) + cleaned(b),
        cleaned(Seq::empty()).len() == 0,
{
    lemma_cleaned_prefix(a, b);
    assert((seq![c] + b).skip(1) =~= b);
}

/// A control sequence is gone from its escape and bracket to the character that ends it, a command to the
/// terminal from its escape and bracket to the bell or to the escape and backslash that end it, and any other
/// escape with the character behind it: what follows is cleaned as if they had not been there. Of one that is
/// never ended nothing is left.
pub proof fn escape_sequences_leave_nothing(inner: Seq<char>, last: char, rest: Seq<char>)
    ensures
        ('@' <= last <= '~') && (forall|i: int|
            0 <= i < inner.len() ==> !('@' <= #[trigger] inner[i] <= '~')) ==> cleaned(
            seq!['\x1b', '['] + inner + seq![last] + rest,
        ) == cleaned(rest),
        stays_open(inner) ==> cleaned(seq!['\x1b', ']'] + inner + seq!['\x07'] + rest) == cleaned(rest),
        stays_open(inner) ==> cleaned(seq!['\x1b', ']'] + inner + seq!['\x1b', '\\'] + rest) == cleaned(rest),
        last != '[' && last != ']' ==> cleaned(seq!['\x1b', last] + rest) == cleaned(rest),
        (forall|i: int| 0 <= i < inner.len() ==> !('@' <= #[trigger] inner[i] <= '~')) ==> cleaned(
            seq!['\x1b', '['] + inner,
        ).len() == 0,
        stays_open(inner) ==> cleaned(seq!['\x1b', ']'] + inner).len() == 0,
        cleaned(seq!['\x1b']).len() == 0,
{
    let csi = seq!['\x1b', '['] + inner + seq![last] + rest;
    if ('@' <= last <= '~') && (forall|i: int|
        0 <= i < inner.len() ==> !('@' <= #[trigger] inner[i] <= '~')) {
        assert(csi.skip(1).skip(1) =~= inner + (seq![last] + rest));
        assert(csi.skip(1)[0] == '[');
        lemma_csi(inner, last, rest);
    }
    if stays_open(inner) {
        let bell = seq!['\x1b', ']'] + inner + seq!['\x07'] + rest;
        assert(bell.skip(1).skip(1) =~= inner + (seq!['\x07'] + rest));
        assert(bell.skip(1)[0] == ']');
        let tail = seq!['\x07'] + rest;
        assert(tail.skip(1) =~= rest);
        lemma_osc(inner, tail);
        let slash = seq!['\x1b', ']'] + inner + seq!['\x1b', '\\'] + rest;
        assert(slash.skip(1).skip(1) =~= inner + (seq!['\x1b', '\\'] + rest));
        assert(slash.skip(1)[0] == ']');
        let end = seq!['\x1b', '\\'] + rest;
        assert(end.skip(2) =~= rest);
        lemma_osc(inner, end);
    }
    reveal_with_fuel(cleaned, 2);
    let open = seq!['\x1b', ']'] + inner;
    assert(open.skip(1).skip(1) =~= inner);
    assert(open.skip(1)[0] == ']');
    if stays_open(inner) {
        lemma_osc(inner, Seq::empty());
        assert(inner + Seq::<char>::empty() =~= inner);
    }
    let unended = seq!['\x1b', '['] + inner;
    assert(unended.skip(1).skip(1) =~= inner);
    assert(unended.skip(1)[0] == '[');
    if forall|i: int| 0 <= i < inner.len() ==> !('@' <= #[trigger] inner[i] <= '~') {
        lemma_csi_unended(inner);
    }
    assert(seq!['\x1b'].skip(1).len() == 0);
    let other = seq!['\x1b', last] + rest;
    assert(other.skip(1).skip(1) =~= rest);
    assert(other.skip(1)[0] == last);
}

/// Whether nothing in this text ends a command to the terminal.
pub open spec fn stays_open(inner: Seq<char>) -> bool {
    forall|i: int|
        0 <= i < inner.len() ==> #[trigger] inner[i] != '\x07' && !(inner[i] == '\x1b' && i + 1
            < inner.len() && inner[i + 1] == '\\')
}

proof fn lemma_csi_unended(inner: Seq<char>)
    requires
        forall|i: int| 0 <= i < inner.len() ==> !('@' <= #[trigger] inner[i] <= '~'),
    ensures
        after_csi(inner).len() == 0,
    decreases inner.len(),
{
    if inner.len() > 0 {
        assert forall|i: int| 0 <= i < inner.skip(1).len() implies !('@' <= #[trigger] inner.skip(
            1,
        )[i] <= '~') by {
            assert(inner.skip(1)[i] == inner[i + 1]);
        }
        lemma_csi_unended(inner.skip(1));
    }
}

proof fn lemma_csi(inner: Seq<char>, last: char, rest: Seq<char>)
    requires
        '@' <= last <= '~',
        forall|i: int| 0 <= i < inner.len() ==> !('@' <= #[trigger] inner[i] <= '~'),
    ensures
        after_csi(inner + (seq![last] + rest)) == rest,
    decreases inner.len(),
{
    let all = inner + (seq![last] + rest);
    if inner.len() == 0 {
        assert(all =~= seq![last] + rest);
        assert(all.skip(1) =~= rest);
    } else {
        assert(all[0] == inner[0]);
        assert(all.skip(1) =~= inner.skip(1) + (seq![last] + rest));
        assert forall|i: int| 0 <= i < inner.skip(1).len() implies !('@' <= #[trigger] inner.skip(
            1,
        )[i] <= '~') by {
            assert(inner.skip(1)[i] == inner[i + 1]);
        }
        lemma_csi(inner.skip(1), last, rest);
    }
}

proof fn lemma_osc(inner: Seq<char>, tail: Seq<char>)
    requires
        stays_open(inner),
        tail.len() > 0 ==> tail[0] != '\\',
    ensures
        after_osc(inner + tail) == after_osc(tail),
    decreases inner.len(),
{
    if inner.len() == 0 {
        assert(inner + tail =~= tail);
    } else {
        assert((inner + tail)[0] == inner[0]);
        assert((inner + tail).skip(1) =~= inner.skip(1) + tail);
        assert forall|i: int| 0 <= i < inner.skip(1).len() implies #[trigger] inner.skip(1)[i]
            != '\x07' && !(inner.skip(1)[i] == '\x1b' && i + 1 < inner.skip(1).len()
            && inner.skip(1)[i + 1] == '\\') by {
            assert(inner.skip(1)[i] == inner[i + 1]);
        }
        lemma_osc(inner.skip(1), tail);
    }
}

/// A line feed ends a row, always: what stands before it and what stands behind it are wrapped each by
/// itself.
pub proof fn line_feeds_end_rows(a: Seq<char>, b: Seq<char>, width: nat)
    requires
        !a.contains('\x1b'),
    ensures
        wrapped(a + seq!['\n'] + b, width) == wrapped(a, width) + wrapped(b, width),
        wrapped(Seq::empty(), width) == seq![Seq::<char>::empty()],
{
    let limit: nat = if width == 0 {
        1
    } else {
        width
    };
    assert(a + seq!['\n'] + b =~= a + (seq!['\n'] + b));
    lemma_cleaned_prefix(a, seq!['\n'] + b);
    assert((seq!['\n'] + b).skip(1) =~= b);
    assert(cleaned(seq!['\n'] + b) =~= seq!['\n'] + cleaned(b));
    lemma_filled_lines(cleaned(a), cleaned(b), limit);
    assert(cleaned(a) + (seq!['\n'] + cleaned(b)) =~= cleaned(a) + seq!['\n'] + cleaned(b));
}

proof fn lemma_filled_lines(a: Seq<char>, b: Seq<char>, width: nat)
    ensures
        filled(a + seq!['\n'] + b, width) == filled(a, width) + filled(b, width),
    decreases b.len(),
{
    let all = a + seq!['\n'] + b;
    let start = filled(a, width);
    if b.len() == 0 {
        assert(all.drop_last() =~= a);
        assert(filled(all, width) =~= start + filled(b, width));
    } else {
        lemma_filled_lines(a, b.drop_last(), width);
        lemma_filled_nonempty(b.drop_last(), width);
        assert(all.drop_last() =~= a + seq!['\n'] + b.drop_last());
        assert(all.last() == b.last());
        let rows = filled(b.drop_last(), width);
        assert((start + rows).last() == rows.last());
        assert((start + rows).drop_last() =~= start + rows.drop_last());
        assert(filled(all, width) =~= start + filled(b, width));
    }
}

/// Rows are filled: where no line feed has ended a row, the character that the next one begins with would
/// not have fitted behind it. So a row is as long as it can be, and none is empty.
pub proof fn rows_are_filled(s: Seq<char>, width: nat, i: int)
    requires
        !cleaned(s).contains('\n'),
        0 <= i < wrapped(s, width).len() - 1,
    ensures
        wrapped(s, width)[i].len() > 0,
        wrapped(s, width)[i + 1].len() > 0,
        row_width(wrapped(s, width)[i]) + columns(wrapped(s, width)[i + 1][0]) > if width == 0 {
            1
        } else {
            width
        },
{
    lemma_filled_full(
        cleaned(s),
        if width == 0 {
            1
        } else {
            width
        },
    );
}

proof fn lemma_filled_full(s: Seq<char>, width: nat)
    requires
        !s.contains('\n'),
    ensures
        forall|i: int|
            0 <= i < filled(s, width).len() - 1 ==> (#[trigger] filled(s, width)[i]).len() > 0
                && filled(s, width)[i + 1].len() > 0 && row_width(filled(s, width)[i]) + columns(
                filled(s, width)[i + 1][0],
            ) > width,
    decreases s.len(),
{
    if s.len() > 0 {
        let rest = s.drop_last();
        assert(s.contains(s[s.len() - 1]));
        assert forall|c: char| rest.contains(c) implies s.contains(c) by {
            let k = choose|k: int| 0 <= k < rest.len() && rest[k] == c;
            assert(s[k] == c);
        }
        lemma_filled_full(rest, width);
        lemma_filled_nonempty(rest, width);
        let rows = filled(rest, width);
        let more = filled(s, width);
        let c = s.last();
        assert(more == with_char(rows, c, width));
        assert forall|i: int| 0 <= i < more.len() - 1 implies (#[trigger] more[i]).len() > 0 && more[i
            + 1].len() > 0 && row_width(more[i]) + columns(more[i + 1][0]) > width by {
            if more.len() > rows.len() {
                assert(more[i] == rows[i]);
                if i == rows.len() - 1 {
                    assert(more[i + 1] == seq![c]);
                    assert(rows[i] == rows.last());
                } else {
                    assert(more[i + 1] == rows[i + 1]);
                }
            } else {
                assert(more[i] == rows[i]);
                if i + 1 == rows.len() - 1 {
                    assert(more[i + 1] == rows[i + 1].push(c));
                    assert(rows[i + 1].len() > 0);
                    assert(more[i + 1][0] == rows[i + 1][0]);
                } else {
                    assert(more[i + 1] == rows[i + 1]);
                }
            }
        }
    }
}

/// A row is as wide as its characters together.
pub proof fn characters_add_to_the_width(row: Seq<char>, c: char)
    ensures
        row_width(Seq::empty()) == 0,
        row_width(row.push(c)) == row_width(row) + match char_width(c) {
            Some(width) => width as nat,
            None => 0,
        },
{
    assert(row.push(c).drop_last() =~= row);
}

/// One more entry is laid out below the others: its label, in the colour of its kind, its text in rows, and
/// an empty row. Hidden activity is not laid out at all.
pub proof fn entries_are_laid_out_in_order(
    entries: Seq<EntryView>,
    entry: EntryView,
    width: nat,
    expanded: bool,
)
    ensures
        layout(Seq::empty(), width, expanded).len() == 0,
        ({
            let before = layout(entries, width, expanded);
            let after = layout(entries.push(entry), width, expanded);
            let rows = after.skip(before.len() as int);
            let text = wrapped(entry.text, width);
            if entry.kind == Kind::Activity && !expanded {
                after == before
            } else {
                &&& before.is_prefix_of(after)
                &&& rows.len() == text.len() + 2
                &&& rows[0].text == cleaned(entry.label)
                &&& rows[0].tint == Some(
                    match entry.kind {
                        Kind::User => Tint::Cyan,
                        Kind::Answer => Tint::Green,
                        Kind::Activity => Tint::DarkGray,
                        Kind::Notice => Tint::Yellow,
                    },
                )
                &&& forall|k: int|
                    0 <= k < text.len() ==> (#[trigger] rows[k + 1]).text == text[k] && rows[k
                        + 1].tint is None
                &&& rows.last().text.len() == 0 && rows.last().tint is None
                &&& forall|k: int|
                    0 <= k < rows.len() ==> (#[trigger] rows[k]).item == entries.len() && rows[k].line
                        == if k <= text.len() {
                        k
                    } else {
                        usize::MAX as int
                    }
            }
        }),
{
    assert(entries.push(entry).drop_last() =~= entries);
    let before = layout(entries, width, expanded);
    let after = layout(entries.push(entry), width, expanded);
    if !(entry.kind == Kind::Activity && !expanded) {
        assert(after.skip(before.len() as int) =~= entry_rows(entries.len() as int, entry, width));
        assert(after.subrange(0, before.len() as int) =~= before);
    }
}

/// The screen begins with the row that it is held at, or the first behind it where that is gone; where it
/// is held at none, or nothing of it is left, it ends with the last row.
pub proof fn the_screen_is_held_at_its_row(v: ViewState)
    ensures
        ({
            let last = if v.rows.len() > v.height {
                v.rows.len() - v.height
            } else {
                0
            };
            match v.anchor {
                None => v.top() == last,
                Some((item, line)) => {
                    let gone = forall|i: int|
                        0 <= i < v.rows.len() ==> (#[trigger] v.rows[i]).item < item || (
                        v.rows[i].item == item && v.rows[i].line < line);
                    &&& gone ==> v.top() == last
                    &&& !gone ==> {
                        &&& 0 <= v.top() < v.rows.len()
                        &&& v.rows[v.top()].item > item || (v.rows[v.top()].item == item
                            && v.rows[v.top()].line >= line)
                        &&& forall|i: int|
                            0 <= i < v.top() ==> (#[trigger] v.rows[i]).item < item || (
                            v.rows[i].item == item && v.rows[i].line < line)
                    }
                },
            }
        }),
{
    if let Some((item, line)) = v.anchor {
        let anchor = (item, line);
        lemma_first_reaching(v.rows, anchor, 0);
        let first = first_reaching(v.rows, anchor, 0);
        if first < v.rows.len() {
            assert(reaches(v.rows[first], anchor));
            assert forall|i: int| 0 <= i < first implies (#[trigger] v.rows[i]).item < item || (
            v.rows[i].item == item && v.rows[i].line < line) by {
                assert(!reaches(v.rows[i], anchor));
            }
        } else {
            assert forall|i: int| 0 <= i < v.rows.len() implies (#[trigger] v.rows[i]).item < item
                || (v.rows[i].item == item && v.rows[i].line < line) by {
                assert(!reaches(v.rows[i], anchor));
            }
        }
    }
}

/// Scrolling holds the screen at the row that far below or above its first one, within the rows; home holds
/// it at the first, and the end at none. Nothing else of the view changes, and showing or hiding activity
/// changes nothing but that.
pub proof fn scrolling_changes_only_the_row(v: ViewState, by: int)
    ensures
        ({
            let last = if v.rows.len() > v.height {
                v.rows.len() - v.height
            } else {
                0
            };
            let to = if v.top() + by < 0 {
                0
            } else if v.top() + by > last {
                last
            } else {
                v.top() + by
            };
            v.scrolled(by) == (ViewState {
                anchor: if to < v.rows.len() {
                    Some((v.rows[to].item, v.rows[to].line))
                } else {
                    None
                },
                ..v
            })
        }),
        v.at_home() == (ViewState { anchor: Some((0, 0)), ..v }),
        v.at_end() == (ViewState { anchor: None, ..v }),
        v.toggled() == (ViewState { expanded: !v.expanded, ..v }),
{
}

/// A scene shows the rows from the first one on, as many as there is room for, inside of a border whose
/// title says whether activity is shown; below them a line with the status and with how much activity there
/// is; and below that the input box.
pub proof fn a_scene_shows_rows_status_and_input(
    v: ViewState,
    regions: Regions,
    c: ConversationView,
    status: Seq<char>,
    input: Seq<char>,
    cursor: nat,
    answering: bool,
)
    ensures
        ({
            let scene = v.scene(regions, c, status, input, cursor, answering);
            let end = if v.top() + v.height > v.rows.len() {
                v.rows.len() as int
            } else {
                v.top() + v.height
            };
            &&& scene.lines =~= v.rows.subrange(v.top(), end)
            &&& scene.title == if v.expanded {
                " Codex Silent · activity shown "@
            } else {
                " Codex Silent · answers only "@
            }
            &&& scene.area == regions.body && scene.inner == inside(regions.body)
            &&& scene.banner_area == regions.banner
            &&& scene.banner == cleaned(
                " "@ + status + " · "@ + decimal(c.hidden()) + " activity items · Ctrl+O "@ + (
                if v.expanded {
                    "hide"@
                } else {
                    "show"@
                }) + " · PgUp/PgDn scroll · /help"@,
            )
            &&& scene.input == input_box(regions.input, input, cursor, answering)
            &&& v.placed(regions, c).height == inside(regions.body).height
            &&& v.placed(regions, c).anchor == v.anchor
            &&& v.placed(regions, c).expanded == v.expanded
        }),
{
    lemma_first_bounds(v);
}

/// The input box has a title that says what Enter does, and shows rows of what was entered up to the one that
/// the cursor is in, as many as it has room for. The cursor stands behind what was entered before it, and
/// never outside of the box.
pub proof fn the_input_box_follows_the_cursor(
    area: Area,
    input: Seq<char>,
    cursor: nat,
    answering: bool,
)
    requires
        area.x + area.width <= u16::MAX,
        area.y + area.height <= u16::MAX,
        area.width > 2,
        area.height > 2,
    ensures
        ({
            let shown = input_box(area, input, cursor, answering);
            let width = (area.width - 2) as nat;
            let height = area.height - 2;
            let before = wrapped(cut(input, cursor), width);
            let rows = wrapped(input, width);
            let first = if before.len() > height {
                before.len() - height
            } else {
                0
            };
            let end = if first + height > rows.len() {
                rows.len() as int
            } else {
                first + height
            };
            let column = row_width(before.last());
            &&& shown.title == if answering {
                " Response required · Enter to answer "@
            } else {
                " Message · Enter send · Alt+Enter newline "@
            }
            &&& shown.area == area
            &&& shown.inner == (Area {
                x: (area.x + 1) as u16,
                y: (area.y + 1) as u16,
                width: width as u16,
                height: height as u16,
            })
            &&& first < rows.len() ==> shown.lines =~= rows.subrange(first, end)
            &&& first >= rows.len() ==> shown.lines.len() == 0
            &&& shown.cursor == Some(
                (
                    (area.x + 1 + if column < width {
                        column as int
                    } else {
                        width - 1
                    }) as u16,
                    (area.y + 1 + (before.len() - 1 - first)) as u16,
                ),
            )
        }),
{
    lemma_filled_nonempty(cleaned(cut(input, cursor)), (area.width - 2) as nat);
}

/// The input box has a row for every line that was entered, at least one and at most four, and its border.
pub proof fn the_input_box_grows_with_its_lines(input: Seq<char>)
    ensures
        line_count(input) <= 1 ==> input_height(input) == 3,
        line_count(input) == 2 ==> input_height(input) == 4,
        line_count(input) == 3 ==> input_height(input) == 5,
        line_count(input) >= 4 ==> input_height(input) == 6,
{
}

/// A border takes one row and one column on every side; where there is no room for that, nothing is left inside
/// of it, and then the input box has no cursor.
pub proof fn a_border_is_one_wide(area: Area, input: Seq<char>, cursor: nat, answering: bool)
    requires
        area.x + area.width <= u16::MAX,
        area.y + area.height <= u16::MAX,
    ensures
        area.width >= 2 ==> inside(area).width == area.width - 2 && inside(area).x == area.x + 1,
        area.height >= 2 ==> inside(area).height == area.height - 2 && inside(area).y == area.y + 1,
        area.width < 2 ==> inside(area).width == 0,
        area.height < 2 ==> inside(area).height == 0,
        area.width <= 2 || area.height <= 2 ==> input_box(
            area,
            input,
            cursor,
            answering,
        ).cursor is None,
{
}

/// The screen is divided from the bottom up: the input box has its rows, the line of text one above them, and
/// the conversation all the rest, at the full width.
pub proof fn the_screen_is_divided_from_the_bottom(area: Area, rows: int, r: Regions)
    requires
        screen_parts(area, rows, r),
        area.y + area.height <= u16::MAX,
        0 <= rows,
        rows + 2 <= area.height,
    ensures
        r.input.height == rows,
        r.input.y == area.y + area.height - rows,
        r.banner.height == 1,
        r.banner.y == area.y + area.height - rows - 1,
        r.body.height == area.height - rows - 1,
        r.body.y == area.y,
        r.body.x == area.x && r.banner.x == area.x && r.input.x == area.x,
        r.body.width == area.width && r.banner.width == area.width && r.input.width == area.width,
{
}

} // verus!
