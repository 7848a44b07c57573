//! Texts as sequences of characters: comparison, trimming, numbers, escapes.
use vstd::prelude::*;
use vstd::string::*;
use vstd::utf8::*;

verus! {

/// `String::push` appends one character to the text.
pub assume_specification[ String::push ](text: &mut String, c: char)
    ensures
        final(text)@ == old(text)@.push(c),
;

/// The characters of a text, in order.
pub fn characters(text: &str) -> (r: Vec<char>)
    ensures
        r@ == text@,
{
    let mut r: Vec<char> = Vec::new();
    for c in it: text.chars()
        invariant
            it.seq() == text@,
            r@ == text@.take(it.index() as int),
    {
        r.push(c);
    }
    r
}

/// The text made of the characters from `from` up to but not including `to`.
pub fn gather(chars: &Vec<char>, from: usize, to: usize) -> (r: String)
    requires
        from <= to <= chars@.len(),
    ensures
        r@ == chars@.subrange(from as int, to as int),
{
    let mut r = String::new();
    for i in from..to
        invariant
            from <= to <= chars@.len(),
            r@ == chars@.subrange(from as int, i as int),
    {
        r.push(chars[i]);
    }
    r
}

/// Whether two texts hold the same characters.
pub fn same(a: &str, b: &str) -> (r: bool)
    ensures
        r == (a@ == b@),
{
    let x = a.as_bytes();
    let y = b.as_bytes();
    proof {
        encode_utf8_decode_utf8(a@);
        encode_utf8_decode_utf8(b@);
    }
    if x.len() != y.len() {
        return false;
    }
    for i in 0..x.len()
        invariant
            x@.len() == y@.len(),
            x@ == encode_utf8(a@),
            y@ == encode_utf8(b@),
            forall|k: int| 0 <= k < i ==> x@[k] == y@[k],
    {
        if x[i] != y[i] {
            return false;
        }
    }
    assert(x@ =~= y@);
    true
}

// ---------------------------------------------------------------------------
// Character classes
// ---------------------------------------------------------------------------

/// The control characters of Unicode (general category Cc).
pub open spec fn control(c: char) -> bool {
    c as u32 <= 0x1f || 0x7f <= c as u32 <= 0x9f
}

/// Whether `c` is a control character.
pub fn is_control(c: char) -> (r: bool)
    ensures
        r == control(c),
{
    let code: u32 = c as u32;
    code <= 0x1f || (0x7f <= code && code <= 0x9f)
}

/// The characters with the Unicode property White_Space.
pub open spec fn space(c: char) -> bool {
    let code = c as u32;
    ||| 0x9 <= code <= 0xd
    ||| code == 0x20
    ||| code == 0x85
    ||| code == 0xa0
    ||| code == 0x1680
    ||| 0x2000 <= code <= 0x200a
    ||| code == 0x2028
    ||| code == 0x2029
    ||| code == 0x202f
    ||| code == 0x205f
    ||| code == 0x3000
}

/// Whether `c` is white space.
pub fn is_space(c: char) -> (r: bool)
    ensures
        r == space(c),
{
    let code: u32 = c as u32;
    (0x9 <= code && code <= 0xd) || code == 0x20 || code == 0x85 || code == 0xa0 || code == 0x1680
        || (0x2000 <= code && code <= 0x200a) || code == 0x2028 || code == 0x2029 || code == 0x202f
        || code == 0x205f || code == 0x3000
}

/// Formatting characters that change the direction of the text around them.
pub open spec fn bidi(c: char) -> bool {
    let code = c as u32;
    ||| code == 0x61c
    ||| code == 0x200e
    ||| code == 0x200f
    ||| 0x202a <= code <= 0x202e
    ||| 0x2066 <= code <= 0x2069
}

/// Whether `c` is a bidirectional formatting character.
pub fn is_bidi(c: char) -> (r: bool)
    ensures
        r == bidi(c),
{
    let code: u32 = c as u32;
    code == 0x61c || code == 0x200e || code == 0x200f || (0x202a <= code && code <= 0x202e) || (
    0x2066 <= code && code <= 0x2069)
}

/// The ASCII lower case of `c`; other characters stand for themselves.
pub open spec fn lower_char(c: char) -> char {
    if 'A' <= c <= 'Z' {
        ((c as u8) + 32) as char
    } else {
        c
    }
}

/// The text with every ASCII capital letter in lower case.
pub open spec fn lower(s: Seq<char>) -> Seq<char> {
    s.map_values(|c: char| lower_char(c))
}

/// The text with every ASCII capital letter in lower case.
pub fn to_lower(text: &str) -> (r: String)
    ensures
        r@ == lower(text@),
{
    let mut r = String::new();
    for c in it: text.chars()
        invariant
            it.seq() == text@,
            r@ == lower(text@.take(it.index() as int)),
    {
        proof {
            assert(text@.take(it.index() + 1) =~= text@.take(it.index() as int).push(c));
            assert(lower(text@.take(it.index() + 1)) =~= lower(
                text@.take(it.index() as int),
            ).push(lower_char(c)));
        }
        if 'A' <= c && c <= 'Z' {
            r.push(((c as u8) + 32) as char);
        } else {
            r.push(c);
        }
    }
    assert(text@.take(text@.len() as int) =~= text@);
    r
}

// ---------------------------------------------------------------------------
// Trimming and prefixes
// ---------------------------------------------------------------------------

/// The text without the white space it starts with.
pub open spec fn trim_front(s: Seq<char>) -> Seq<char>
    decreases s.len(),
{
    if s.len() > 0 && space(s[0]) {
        trim_front(s.drop_first())
    } else {
        s
    }
}

/// The text without the white space it ends with.
pub open spec fn trim_back(s: Seq<char>) -> Seq<char>
    decreases s.len(),
{
    if s.len() > 0 && space(s.last()) {
        trim_back(s.drop_last())
    } else {
        s
    }
}

/// The text without white space at either end.
pub open spec fn trimmed(s: Seq<char>) -> Seq<char> {
    trim_back(trim_front(s))
}

/// Whether a text holds nothing but white space.
pub open spec fn blank(s: Seq<char>) -> bool {
    forall|i: int| 0 <= i < s.len() ==> space(#[trigger] s[i])
}

/// A text of which nothing is left without white space at its ends is white space throughout.
pub proof fn nothing_left_is_blank(s: Seq<char>)
    requires
        trimmed(s).len() == 0,
    ensures
        blank(s),
    decreases s.len(),
{
    if s.len() > 0 {
        if space(s[0]) {
            nothing_left_is_blank(s.drop_first());
            assert forall|i: int| 0 <= i < s.len() implies space(#[trigger] s[i]) by {
                if i > 0 {
                    assert(s.drop_first()[i - 1] == s[i]);
                }
            }
        } else {
            lemma_back_keeps_front(s);
        }
    }
}

proof fn lemma_back_keeps_front(s: Seq<char>)
    requires
        s.len() > 0,
        !space(s[0]),
    ensures
        trim_back(s).len() > 0,
    decreases s.len(),
{
    if space(s.last()) {
        assert(s.drop_last()[0] == s[0]);
        lemma_back_keeps_front(s.drop_last());
    }
}

/// The text without the white space it starts with.
pub fn trim_start(text: &str) -> (r: String)
    ensures
        r@ == trim_front(text@),
{
    let chars = characters(text);
    let start = front_of(&chars);
    gather(&chars, start, chars.len())
}

/// The position of the first character that is not white space.
fn front_of(chars: &Vec<char>) -> (start: usize)
    ensures
        start <= chars@.len(),
        trim_front(chars@) == chars@.skip(start as int),
{
    let mut start: usize = 0;
    assert(chars@.skip(0) =~= chars@);
    while start < chars.len() && is_space(chars[start])
        invariant
            start <= chars@.len(),
            trim_front(chars@) == trim_front(chars@.skip(start as int)),
        decreases chars@.len() - start,
    {
        assert(chars@.skip(start as int).drop_first() =~= chars@.skip(start + 1));
        start = start + 1;
    }
    start
}

/// The text without white space at either end.
pub fn trim(text: &str) -> (r: String)
    ensures
        r@ == trimmed(text@),
{
    let chars = characters(text);
    let start = front_of(&chars);
    let mut end: usize = chars.len();
    assert(chars@.subrange(start as int, end as int) =~= chars@.skip(start as int));
    while start < end && is_space(chars[end - 1])
        invariant
            start <= end <= chars@.len(),
            trimmed(text@) == trim_back(chars@.subrange(start as int, end as int)),
        decreases end,
    {
        assert(chars@.subrange(start as int, end as int).drop_last() =~= chars@.subrange(
            start as int,
            end - 1,
        ));
        end = end - 1;
    }
    gather(&chars, start, end)
}

/// Whether a text starts with another one.
pub fn starts_with(text: &str, prefix: &str) -> (r: bool)
    ensures
        r == prefix@.is_prefix_of(text@),
{
    let chars = characters(text);
    let wanted = characters(prefix);
    prefix_at(&chars, 0, &wanted)
}

/// Whether the characters from `from` on start with `wanted`.
fn prefix_at(chars: &Vec<char>, from: usize, wanted: &Vec<char>) -> (r: bool)
    requires
        from <= chars@.len(),
    ensures
        r == wanted@.is_prefix_of(chars@.skip(from as int)),
{
    if wanted.len() > chars.len() - from {
        return false;
    }
    for i in 0..wanted.len()
        invariant
            from <= chars.len(),
            wanted.len() <= chars.len() - from,
            forall|k: int| 0 <= k < i ==> chars@.skip(from as int)[k] == wanted@[k],
    {
        if chars[from + i] != wanted[i] {
            assert(chars@.skip(from as int)[i as int] != wanted@[i as int]);
            return false;
        }
    }
    assert(chars@.skip(from as int).take(wanted@.len() as int) =~= wanted@);
    true
}

/// The text after every repetition of `prefix` that it starts with.
pub open spec fn strip_all(s: Seq<char>, prefix: Seq<char>) -> Seq<char>
    decreases s.len(),
{
    if prefix.len() > 0 && prefix.is_prefix_of(s) {
        strip_all(s.skip(prefix.len() as int), prefix)
    } else {
        s
    }
}

/// The text after every repetition of `prefix` that it starts with.
pub fn strip_prefixes(text: &str, prefix: &str) -> (r: String)
    requires
        prefix@.len() > 0,
    ensures
        r@ == strip_all(text@, prefix@),
{
    let chars = characters(text);
    let wanted = characters(prefix);
    let mut start: usize = 0;
    assert(chars@.skip(0) =~= chars@);
    while prefix_at(&chars, start, &wanted)
        invariant
            start <= chars.len(),
            wanted.len() > 0,
            strip_all(text@, wanted@) == strip_all(chars@.skip(start as int), wanted@),
        decreases chars@.len() - start,
    {
        assert(start + wanted.len() <= chars.len());
        assert(chars@.skip(start as int).skip(wanted@.len() as int) =~= chars@.skip(
            start + wanted@.len(),
        ));
        start = start + wanted.len();
    }
    gather(&chars, start, chars.len())
}

/// The number of lines of a text; a line feed at the very end opens no line.
pub open spec fn line_count(s: Seq<char>) -> nat {
    if s.len() == 0 {
        0
    } else {
        feeds(s) + if s.last() == '\n' {
            0nat
        } else {
            1nat
        }
    }
}

/// The number of line feeds in a text.
pub open spec fn feeds(s: Seq<char>) -> nat
    decreases s.len(),
{
    if s.len() == 0 {
        0
    } else {
        feeds(s.drop_last()) + if s.last() == '\n' {
            1nat
        } else {
            0nat
        }
    }
}

/// The number of lines of a text.
pub fn count_lines(text: &str) -> (r: usize)
    ensures
        r == line_count(text@),
{
    let chars = characters(text);
    let mut r: usize = 0;
    assert(chars@.take(0) =~= Seq::<char>::empty());
    for i in 0..chars.len()
        invariant
            r == feeds(chars@.take(i as int)),
            r <= i,
    {
        assert(chars@.take(i + 1).drop_last() =~= chars@.take(i as int));
        if chars[i] == '\n' {
            r = r + 1;
        }
    }
    assert(chars@.take(chars@.len() as int) =~= chars@);
    if chars.len() > 0 && chars[chars.len() - 1] != '\n' {
        proof {
            lemma_feeds_bound(chars@.drop_last());
        }
        r = r + 1;
    }
    r
}

proof fn lemma_feeds_bound(s: Seq<char>)
    ensures
        feeds(s) <= s.len(),
    decreases s.len(),
{
    if s.len() > 0 {
        lemma_feeds_bound(s.drop_last());
    }
}

// ---------------------------------------------------------------------------
// Numbers
// ---------------------------------------------------------------------------

/// The character of a decimal digit.
pub open spec fn digit(d: nat) -> char {
    (48 + d) as char
}

/// A number in decimal, without leading zeros.
pub open spec fn decimal(n: nat) -> Seq<char>
    decreases n,
{
    if n < 10 {
        seq![digit(n)]
    } else {
        decimal(n / 10).push(digit(n % 10))
    }
}

/// A number in decimal, without leading zeros.
pub fn to_decimal(n: u128) -> (r: String)
    ensures
        r@ == decimal(n as nat),
    decreases n,
{
    if n < 10 {
        let mut r = String::new();
        r.push((48 + n as u8) as char);
        assert(r@ =~= decimal(n as nat));
        r
    } else {
        let mut r = to_decimal(n / 10);
        r.push((48 + (n % 10) as u8) as char);
        r
    }
}

/// A whole number in decimal, with a sign when it is negative.
pub open spec fn signed(n: int) -> Seq<char> {
    if n < 0 {
        seq!['-'] + decimal((-n) as nat)
    } else {
        decimal(n as nat)
    }
}

/// A whole number in decimal, with a sign when it is negative.
pub fn to_signed(n: i64) -> (r: String)
    ensures
        r@ == signed(n as int),
{
    if n < 0 {
        let mut r = String::new();
        r.push('-');
        let digits = to_decimal((-(n as i128)) as u128);
        r.append(digits.as_str());
        assert(r@ =~= signed(n as int));
        r
    } else {
        to_decimal(n as u128)
    }
}

/// Whether a character is an ASCII digit.
pub open spec fn is_digit(c: char) -> bool {
    '0' <= c <= '9'
}

/// Whether every character is an ASCII digit.
pub open spec fn all_digits(s: Seq<char>) -> bool {
    forall|i: int| 0 <= i < s.len() ==> is_digit(#[trigger] s[i])
}

/// The number that a sequence of digits denotes.
pub open spec fn number(s: Seq<char>) -> nat
    decreases s.len(),
{
    if s.len() == 0 {
        0
    } else {
        number(s.drop_last()) * 10 + (s.last() as nat - 48) as nat
    }
}

/// Whether every character of a text is an ASCII digit.
pub fn only_digits(text: &str) -> (r: bool)
    ensures
        r == all_digits(text@),
{
    let chars = characters(text);
    for i in 0..chars.len()
        invariant
            chars@ == text@,
            forall|k: int| 0 <= k < i ==> is_digit(#[trigger] chars@[k]),
    {
        if !('0' <= chars[i] && chars[i] <= '9') {
            assert(!is_digit(text@[i as int]));
            return false;
        }
    }
    true
}

/// The number that a text of digits denotes, when it fits.
pub fn parse_digits(text: &str) -> (r: Option<usize>)
    requires
        all_digits(text@),
    ensures
        r == (if number(text@) <= usize::MAX {
            Some(number(text@) as usize)
        } else {
            None
        }),
{
    let chars = characters(text);
    let mut r: usize = 0;
    assert(chars@.take(0) =~= Seq::<char>::empty());
    for i in 0..chars.len()
        invariant
            chars@ == text@,
            all_digits(text@),
            r == number(chars@.take(i as int)),
    {
        assert(chars@.take(i + 1).drop_last() =~= chars@.take(i as int));
        assert(is_digit(text@[i as int]));
        proof {
            lemma_number_grows(chars@, i + 1);
        }
        let d: usize = (chars[i] as u32 - 48) as usize;
        match r.checked_mul(10) {
            None => {
                return None;
            },
            Some(tens) => {
                match tens.checked_add(d) {
                    None => {
                        return None;
                    },
                    Some(sum) => {
                        r = sum;
                    },
                }
            },
        }
    }
    assert(chars@.take(chars@.len() as int) =~= chars@);
    Some(r)
}

/// More digits never make the number smaller.
proof fn lemma_number_grows(s: Seq<char>, i: int)
    requires
        0 <= i <= s.len(),
    ensures
        number(s.take(i)) <= number(s),
    decreases s.len() - i,
{
    if i < s.len() {
        lemma_number_grows(s, i + 1);
        assert(s.take(i + 1).drop_last() =~= s.take(i));
    } else {
        assert(s.take(i) =~= s);
    }
}

// ---------------------------------------------------------------------------
// Escapes
// ---------------------------------------------------------------------------

/// The character of a hexadecimal digit.
pub open spec fn hex_digit(d: nat) -> char {
    if d < 10 {
        (48 + d) as char
    } else {
        (87 + d) as char
    }
}

/// A number in hexadecimal, in lower case and without leading zeros.
pub open spec fn hex(n: nat) -> Seq<char>
    decreases n,
{
    if n < 16 {
        seq![hex_digit(n)]
    } else {
        hex(n / 16).push(hex_digit(n % 16))
    }
}

/// A number in hexadecimal.
fn to_hex(n: u32) -> (r: String)
    ensures
        r@ == hex(n as nat),
    decreases n,
{
    let d: u8 = (n % 16) as u8;
    let c: char = if d < 10 {
        (48 + d) as char
    } else {
        (87 + d) as char
    };
    if n < 16 {
        let mut r = String::new();
        r.push(c);
        assert(r@ =~= hex(n as nat));
        r
    } else {
        let mut r = to_hex(n / 16);
        r.push(c);
        r
    }
}

/// The escape that names a character outside printable ASCII.
pub open spec fn escape(c: char) -> Seq<char> {
    if c == '\t' {
        "\\t"@
    } else if c == '\r' {
        "\\r"@
    } else {
        "\\u{"@ + hex(c as nat) + "}"@
    }
}

/// The escape that names a character outside printable ASCII.
pub fn to_escape(c: char) -> (r: String)
    ensures
        r@ == escape(c),
{
    if c == '\t' {
        "\\t".to_owned()
    } else if c == '\r' {
        "\\r".to_owned()
    } else {
        let mut r = "\\u{".to_owned();
        let digits = to_hex(c as u32);
        r.append(digits.as_str());
        r.append("}");
        r
    }
}

// ---------------------------------------------------------------------------
// Order
// ---------------------------------------------------------------------------

/// Whether `a` comes before `b` when texts are ordered character by character.
pub open spec fn before(a: Seq<char>, b: Seq<char>) -> bool
    decreases a.len(),
{
    if b.len() == 0 {
        false
    } else if a.len() == 0 {
        true
    } else if a[0] == b[0] {
        before(a.drop_first(), b.drop_first())
    } else {
        a[0] < b[0]
    }
}

/// Whether `a` comes before `b`.
pub fn is_before(a: &str, b: &str) -> (r: bool)
    ensures
        r == before(a@, b@),
{
    let x = characters(a);
    let y = characters(b);
    let mut i: usize = 0;
    assert(x@.skip(0) =~= x@);
    assert(y@.skip(0) =~= y@);
    while i < x.len() && i < y.len() && x[i] == y[i]
        invariant
            i <= x@.len(),
            i <= y@.len(),
            before(a@, b@) == before(x@.skip(i as int), y@.skip(i as int)),
        decreases x@.len() - i,
    {
        assert(x@.skip(i as int).drop_first() =~= x@.skip(i + 1));
        assert(y@.skip(i as int).drop_first() =~= y@.skip(i + 1));
        i = i + 1;
    }
    if i == y.len() {
        false
    } else if i == x.len() {
        true
    } else {
        assert(x@.skip(i as int)[0] == x@[i as int]);
        assert(y@.skip(i as int)[0] == y@[i as int]);
        x[i] < y[i]
    }
}

/// No text comes before itself.
pub proof fn before_is_irreflexive(a: Seq<char>)
    ensures
        !before(a, a),
    decreases a.len(),
{
    if a.len() > 0 {
        before_is_irreflexive(a.drop_first());
    }
}

/// The order of texts is transitive.
pub proof fn before_is_transitive(a: Seq<char>, b: Seq<char>, c: Seq<char>)
    requires
        before(a, b),
        before(b, c),
    ensures
        before(a, c),
    decreases a.len(),
{
    if a.len() > 0 && a[0] == b[0] && b[0] == c[0] {
        before_is_transitive(a.drop_first(), b.drop_first(), c.drop_first());
    }
}

/// Of two different texts one comes before the other.
pub proof fn before_is_total(a: Seq<char>, b: Seq<char>)
    requires
        a != b,
    ensures
        before(a, b) || before(b, a),
    decreases a.len(),
{
    if a.len() > 0 && b.len() > 0 && a[0] == b[0] {
        if a.drop_first() == b.drop_first() {
            assert(a =~= seq![a[0]] + a.drop_first());
            assert(b =~= seq![b[0]] + b.drop_first());
        }
        before_is_total(a.drop_first(), b.drop_first());
    } else if a.len() == 0 && b.len() == 0 {
        assert(a =~= b);
    }
}

// ---------------------------------------------------------------------------
// Joining
// ---------------------------------------------------------------------------

/// The texts one after the other, with `separator` between them.
pub open spec fn joined(parts: Seq<Seq<char>>, separator: Seq<char>) -> Seq<char>
    decreases parts.len(),
{
    if parts.len() == 0 {
        Seq::empty()
    } else if parts.len() == 1 {
        parts[0]
    } else {
        joined(parts.drop_last(), separator) + separator + parts.last()
    }
}

/// The contents of a sequence of texts.
pub open spec fn texts(parts: Seq<String>) -> Seq<Seq<char>> {
    parts.map_values(|part: String| part@)
}

/// The texts one after the other, with `separator` between them.
pub fn join_all(parts: &Vec<String>, separator: &str) -> (r: String)
    ensures
        r@ == joined(texts(parts@), separator@),
{
    let mut r = String::new();
    let ghost all = texts(parts@);
    assert(all.take(0) =~= Seq::empty());
    for i in 0..parts.len()
        invariant
            all == texts(parts@),
            r@ == joined(all.take(i as int), separator@),
    {
        assert(all.take(i + 1).drop_last() =~= all.take(i as int));
        assert(all.take(i + 1).last() == parts@[i as int]@);
        if i > 0 {
            r.append(separator);
            r.append(parts[i].as_str());
        } else {
            r.append(parts[i].as_str());
            assert(r@ =~= parts@[0]@);
        }
    }
    assert(all.take(all.len() as int) =~= all);
    r
}

// ---------------------------------------------------------------------------
// Byte offsets
// ---------------------------------------------------------------------------

/// How many bytes a character takes in UTF-8.
pub open spec fn size(c: char) -> nat {
    if c <= '\u{7f}' {
        1
    } else if c <= '\u{7ff}' {
        2
    } else if c <= '\u{ffff}' {
        3
    } else {
        4
    }
}

/// How many bytes a text takes in UTF-8.
pub open spec fn bytes_of(s: Seq<char>) -> nat
    decreases s.len(),
{
    if s.len() == 0 {
        0
    } else {
        bytes_of(s.drop_last()) + size(s.last())
    }
}

/// The longest start of a text that takes at most `room` bytes.
pub open spec fn cut(s: Seq<char>, room: nat) -> Seq<char>
    decreases s.len(),
{
    if s.len() > 0 && size(s[0]) <= room {
        seq![s[0]] + cut(s.skip(1), (room - size(s[0])) as nat)
    } else {
        Seq::empty()
    }
}

/// Whether a byte offset lies between two characters of a text, or not before its end.
pub open spec fn at_boundary(s: Seq<char>, offset: nat) -> bool {
    offset >= bytes_of(s) || bytes_of(cut(s, offset)) == offset
}

/// Bytes of two texts one after the other.
pub proof fn lemma_bytes_add(a: Seq<char>, b: Seq<char>)
    ensures
        bytes_of(a + b) == bytes_of(a) + bytes_of(b),
    decreases b.len(),
{
    if b.len() == 0 {
        assert(a + b =~= a);
    } else {
        lemma_bytes_add(a, b.drop_last());
        assert((a + b).drop_last() =~= a + b.drop_last());
    }
}

/// The bytes of a text are those of its UTF-8 encoding.
pub proof fn lemma_bytes_encoded(s: Seq<char>)
    ensures
        bytes_of(s) == encode_utf8(s).len(),
    decreases s.len(),
{
    if s.len() > 0 {
        lemma_bytes_encoded(s.drop_first());
        assert(s =~= seq![s[0]] + s.drop_first());
        lemma_bytes_add(seq![s[0]], s.drop_first());
        assert(seq![s[0]].drop_last() =~= Seq::empty());
        assert(bytes_of(seq![s[0]]) == size(s[0])) by {
            reveal_with_fuel(bytes_of, 2);
        }
        lemma_size(s[0]);
    }
}

proof fn lemma_size(c: char)
    ensures
        encode_scalar(c as u32).len() == size(c),
{
    char_is_scalar(c);
}

/// A text with an offset into it keeps, before that offset, what [`cut`] says.
pub proof fn lemma_cut(s: Seq<char>, k: int)
    requires
        0 <= k <= s.len(),
    ensures
        cut(s, bytes_of(s.take(k))) == s.take(k),
    decreases s.len(),
{
    if k == 0 {
        assert(s.take(0) =~= Seq::empty());
        assert(cut(s, 0) =~= Seq::empty());
    } else {
        let rest = s.skip(1);
        lemma_cut(rest, k - 1);
        assert(s.take(k) =~= seq![s[0]] + rest.take(k - 1));
        lemma_bytes_add(seq![s[0]], rest.take(k - 1));
        assert(seq![s[0]].drop_last() =~= Seq::empty());
        assert(bytes_of(seq![s[0]]) == size(s[0])) by {
            reveal_with_fuel(bytes_of, 2);
        }
    }
}

/// How many bytes a character takes in UTF-8.
pub fn char_size(c: char) -> (r: usize)
    ensures
        r == size(c),
{
    if c <= '\u{7f}' {
        1
    } else if c <= '\u{7ff}' {
        2
    } else if c <= '\u{ffff}' {
        3
    } else {
        4
    }
}

/// How many bytes a text takes in UTF-8.
pub fn byte_count(text: &str) -> (r: usize)
    ensures
        r == bytes_of(text@),
{
    proof {
        lemma_bytes_encoded(text@);
    }
    text.as_bytes().len()
}

/// How many characters the longest start of a text of at most `room` bytes has.
pub fn chars_within(chars: &Vec<char>, room: usize) -> (k: usize)
    ensures
        k <= chars@.len(),
        chars@.take(k as int) == cut(chars@, room as nat),
{
    let mut k: usize = 0;
    let mut left: usize = room;
    assert(chars@.skip(0) =~= chars@);
    assert(Seq::<char>::empty() + cut(chars@, room as nat) =~= cut(chars@, room as nat));
    assert(chars@.take(0) =~= Seq::empty());
    while k < chars.len() && char_size(chars[k]) <= left
        invariant
            k <= chars.len(),
            cut(chars@, room as nat) == chars@.take(k as int) + cut(
                chars@.skip(k as int),
                left as nat,
            ),
        ensures
            k <= chars.len(),
            chars@.take(k as int) == cut(chars@, room as nat),
        decreases chars.len() - k,
    {
        proof {
            let rest = chars@.skip(k as int);
            assert(rest[0] == chars@[k as int]);
            assert(rest.skip(1) =~= chars@.skip(k + 1));
            assert(chars@.take(k + 1) =~= chars@.take(k as int) + seq![rest[0]]);
            assert(chars@.take(k as int) + (seq![rest[0]] + cut(
                chars@.skip(k + 1),
                (left - size(rest[0])) as nat,
            )) =~= chars@.take(k + 1) + cut(chars@.skip(k + 1), (left - size(rest[0])) as nat));
        }
        left = left - char_size(chars[k]);
        k = k + 1;
    }
    k
}

/// A text is what stands before a byte offset and what stands behind that.
pub proof fn lemma_split(s: Seq<char>, offset: nat)
    ensures
        cut(s, offset).is_prefix_of(s),
        cut(s, offset) + s.skip(cut(s, offset).len() as int) == s,
    decreases s.len(),
{
    if s.len() > 0 && size(s[0]) <= offset {
        let rest = s.skip(1);
        lemma_split(rest, (offset - size(s[0])) as nat);
        let inner = cut(rest, (offset - size(s[0])) as nat);
        assert(cut(s, offset) =~= seq![s[0]] + inner);
        assert forall|i: int| 0 <= i < cut(s, offset).len() implies cut(s, offset)[i] == s[i] by {
            if i > 0 {
                assert(cut(s, offset)[i] == inner[i - 1]);
                assert(inner[i - 1] == rest[i - 1]);
            }
        }
    }
    assert(cut(s, offset) + s.skip(cut(s, offset).len() as int) =~= s);
}

// ---------------------------------------------------------------------------
// Laws
// ---------------------------------------------------------------------------

/// Of ASCII, white space is the space and the characters from the tab to the carriage return, and control
/// characters are those before the space and the one behind the tilde. No character that is white space
/// changes the direction of text.
pub proof fn characters_are_of_their_kinds(c: char)
    ensures
        ({
            let code = c as int;
            &&& code <= 0x7f ==> (space(c) <==> c == ' ' || c == '\t' || c == '\n' || c == '\r' || c
                == '\x0b' || c == '\x0c')
            &&& code <= 0x7f ==> (control(c) <==> c < ' ' || c == '\x7f')
            &&& code > 0x9f ==> !control(c)
            &&& 0x80 <= code <= 0x9f ==> control(c) && (space(c) <==> code == 0x85)
            &&& code == 0xa0 || code == 0x1680 || 0x2000 <= code <= 0x200a || code == 0x2028 || code
                == 0x2029 || code == 0x202f || code == 0x205f || code == 0x3000 ==> space(c)
            &&& 0xa0 < code < 0x1680 || 0x1680 < code < 0x2000 || 0x200a < code < 0x2028 || 0x2029
                < code < 0x202f || 0x202f < code < 0x205f || 0x205f < code < 0x3000 || 0x3000 < code
                ==> !space(c)
            &&& code == 0x61c || code == 0x200e || code == 0x200f || 0x202a <= code <= 0x202e
                || 0x2066 <= code <= 0x2069 ==> bidi(c)
            &&& code < 0x61c || 0x61c < code < 0x200e || 0x200f < code < 0x202a || 0x202e < code
                < 0x2066 || 0x2069 < code ==> !bidi(c)
        }),
{
}

/// What is left of a text without white space at its ends is the part between: before it and behind it
/// there is nothing but white space, and it neither begins nor ends with any.
pub proof fn trimming_takes_white_space_alone(s: Seq<char>)
    ensures
        exists|i: int, j: int|
            #![trigger s.subrange(i, j)]
            {
                &&& 0 <= i <= j <= s.len()
                &&& trimmed(s) == s.subrange(i, j)
                &&& forall|k: int| 0 <= k < i ==> space(#[trigger] s[k])
                &&& forall|k: int| j <= k < s.len() ==> space(#[trigger] s[k])
                &&& i < j ==> !space(s[i]) && !space(s[j - 1])
            },
{
    let i = lemma_trim_front(s);
    let t = s.subrange(i, s.len() as int);
    let j = i + lemma_trim_back(t);
    assert(t.subrange(0, j - i) =~= s.subrange(i, j));
    assert forall|k: int| j <= k < s.len() implies space(#[trigger] s[k]) by {
        assert(t[k - i] == s[k]);
    }
    if i < j {
        assert(t[j - i - 1] == s[j - 1]);
    }
}

proof fn lemma_trim_front(s: Seq<char>) -> (i: int)
    ensures
        0 <= i <= s.len(),
        trim_front(s) == s.subrange(i, s.len() as int),
        forall|k: int| 0 <= k < i ==> space(#[trigger] s[k]),
        i < s.len() ==> !space(s[i]),
    decreases s.len(),
{
    if s.len() > 0 && space(s[0]) {
        let i = lemma_trim_front(s.drop_first());
        assert(s.drop_first().subrange(i, s.len() - 1) =~= s.subrange(i + 1, s.len() as int));
        assert forall|k: int| 0 <= k < i + 1 implies space(#[trigger] s[k]) by {
            if k > 0 {
                assert(s.drop_first()[k - 1] == s[k]);
            }
        }
        i + 1
    } else {
        assert(s.subrange(0, s.len() as int) =~= s);
        0
    }
}

proof fn lemma_trim_back(s: Seq<char>) -> (j: int)
    ensures
        0 <= j <= s.len(),
        trim_back(s) == s.subrange(0, j),
        forall|k: int| j <= k < s.len() ==> space(#[trigger] s[k]),
        j > 0 ==> !space(s[j - 1]),
    decreases s.len(),
{
    if s.len() > 0 && space(s.last()) {
        let j = lemma_trim_back(s.drop_last());
        assert(s.drop_last().subrange(0, j) =~= s.subrange(0, j));
        assert forall|k: int| j <= k < s.len() implies space(#[trigger] s[k]) by {
            if k < s.len() - 1 {
                assert(s.drop_last()[k] == s[k]);
            }
        }
        if j > 0 {
            assert(s.drop_last()[j - 1] == s[j - 1]);
        }
        j
    } else {
        assert(s.subrange(0, s.len() as int) =~= s);
        s.len() as int
    }
}

/// A text begins, without the white space it starts with, as it begins without any at its ends.
pub proof fn trimming_keeps_the_first_character(s: Seq<char>)
    requires
        trimmed(s).len() > 0,
    ensures
        trim_front(s).len() > 0,
        trim_front(s)[0] == trimmed(s)[0],
{
    let t = trim_front(s);
    let j = lemma_trim_back(t);
}

/// Lower case changes the capital letters of ASCII, each to its small letter, and nothing else.
pub proof fn lower_case_changes_capitals_alone(s: Seq<char>, i: int)
    requires
        0 <= i < s.len(),
    ensures
        lower(s).len() == s.len(),
        'A' <= s[i] <= 'Z' ==> lower(s)[i] as int == s[i] as int + 32,
        !('A' <= s[i] <= 'Z') ==> lower(s)[i] == s[i],
{
}

/// A number in decimal: a digit for what is left of it below ten, behind the number of its tens, and no
/// zero in front. Read as digits it is the number again.
pub proof fn decimals_are_read_back(n: nat)
    ensures
        decimal(n).len() > 0,
        all_digits(decimal(n)),
        number(decimal(n)) == n,
        decimal(n).last() as int == '0' as int + n % 10,
        n < 10 ==> decimal(n).len() == 1,
        n >= 10 ==> decimal(n).drop_last() == decimal(n / 10) && decimal(n)[0] != '0',
    decreases n,
{
    if n >= 10 {
        decimals_are_read_back(n / 10);
        let s = decimal(n);
        assert(s.drop_last() =~= decimal(n / 10));
        assert forall|i: int| 0 <= i < s.len() implies is_digit(#[trigger] s[i]) by {
            if i < s.len() - 1 {
                assert(s[i] == decimal(n / 10)[i]);
            }
        }
        assert(s[0] == decimal(n / 10)[0]);
        if n / 10 < 10 {
            assert(decimal(n / 10).last() == decimal(n / 10)[0]);
        }
    } else {
        let s = decimal(n);
        assert(s.drop_last() =~= Seq::empty());
        assert(number(s.drop_last()) == 0);
    }
}

/// A digit more makes of a number ten times that number, and the digit.
pub proof fn digits_have_their_places(s: Seq<char>, c: char)
    requires
        is_digit(c),
    ensures
        number(Seq::empty()) == 0,
        number(s.push(c)) == number(s) * 10 + (c as int - '0' as int),
{
    assert(s.push(c).drop_last() =~= s);
}

/// The sign of a whole number stands before its digits, and only where it is negative.
pub proof fn signs_stand_in_front(n: int)
    ensures
        n >= 0 ==> signed(n) == decimal(n as nat),
        n < 0 ==> signed(n).len() == decimal((-n) as nat).len() + 1 && signed(n)[0] == '-'
            && signed(n).skip(1) == decimal((-n) as nat),
{
    if n < 0 {
        assert(signed(n).skip(1) =~= decimal((-n) as nat));
    }
}

/// The escape of a character says which one it is: its number in hexadecimal, in braces, unless it is a
/// tab or a carriage return, which have names.
pub proof fn escapes_name_their_character(c: char)
    ensures
        c == '\t' ==> escape(c) == seq!['\\', 't'],
        c == '\r' ==> escape(c) == seq!['\\', 'r'],
        c != '\t' && c != '\r' ==> escape(c) == seq!['\\', 'u', '{'] + hex(c as nat) + seq!['}'],
{
    reveal_strlit("\\t");
    reveal_strlit("\\r");
    reveal_strlit("\\u{");
    reveal_strlit("}");
    assert("\\t"@ =~= seq!['\\', 't']);
    assert("\\r"@ =~= seq!['\\', 'r']);
    assert("\\u{"@ =~= seq!['\\', 'u', '{']);
    assert("}"@ =~= seq!['}']);
}

/// A number in hexadecimal: a digit or a letter for what is left of it below sixteen, behind the number
/// of its sixteens.
pub proof fn hexadecimals_have_their_places(n: nat)
    ensures
        hex(n).len() > 0,
        n % 16 < 10 ==> hex(n).last() as int == '0' as int + n % 16,
        n % 16 >= 10 ==> hex(n).last() as int == 'a' as int + n % 16 - 10,
        n < 16 ==> hex(n).len() == 1,
        n >= 16 ==> hex(n).drop_last() == hex(n / 16),
{
    if n >= 16 {
        assert(hex(n).drop_last() =~= hex(n / 16));
    }
}

/// Texts are joined with the separator between each two of them, and nowhere else.
pub proof fn separators_stand_between(
    parts: Seq<Seq<char>>,
    part: Seq<char>,
    separator: Seq<char>,
)
    ensures
        joined(Seq::empty(), separator).len() == 0,
        joined(parts.push(part), separator) == if parts.len() == 0 {
            part
        } else {
            joined(parts, separator) + separator + part
        },
{
    assert(parts.push(part).drop_last() =~= parts);
}

/// The lines of a text: each line feed ends one, and what stands behind the last one is a line if it is
/// anything.
pub proof fn lines_are_ended_by_feeds(s: Seq<char>, c: char)
    ensures
        line_count(Seq::empty()) == 0,
        s.len() == 0 ==> line_count(s.push(c)) == 1,
        s.len() > 0 && s.last() == '\n' ==> line_count(s.push(c)) == line_count(s) + 1,
        s.len() > 0 && s.last() != '\n' ==> line_count(s.push(c)) == line_count(s),
{
    assert(s.push(c).drop_last() =~= s);
    reveal_with_fuel(feeds, 2);
}

/// What is left of a text without the repetitions of a prefix does not begin with it, and with the
/// repetitions before it is the text again: one is taken off at a time.
pub proof fn prefixes_are_taken_off(s: Seq<char>, prefix: Seq<char>)
    requires
        prefix.len() > 0,
    ensures
        !prefix.is_prefix_of(strip_all(s, prefix)),
        strip_all(s, prefix).is_suffix_of(s),
        !prefix.is_prefix_of(s) ==> strip_all(s, prefix) == s,
        strip_all(prefix + s, prefix) == strip_all(s, prefix),
    decreases s.len(),
{
    assert(prefix.is_prefix_of(prefix + s)) by {
        assert((prefix + s).subrange(0, prefix.len() as int) =~= prefix);
    }
    assert((prefix + s).skip(prefix.len() as int) =~= s);
    if prefix.is_prefix_of(s) {
        let rest = s.skip(prefix.len() as int);
        prefixes_are_taken_off(rest, prefix);
        let end = strip_all(s, prefix);
        assert(end == rest.subrange(rest.len() - end.len(), rest.len() as int));
        assert(end =~= s.subrange(s.len() - end.len(), s.len() as int));
    } else {
        assert(s.subrange(0, s.len() as int) =~= s);
    }
}

/// Texts are ordered by the first character in which they differ, and a text that another one begins with
/// comes before it.
pub proof fn texts_are_ordered_by_their_first_difference(
    start: Seq<char>,
    a: Seq<char>,
    b: Seq<char>,
)
    requires
        a.len() == 0 || b.len() == 0 || a[0] != b[0],
    ensures
        before(start + a, start + b) <==> b.len() > 0 && (a.len() == 0 || a[0] < b[0]),
    decreases start.len(),
{
    if start.len() == 0 {
        assert(start + a =~= a);
        assert(start + b =~= b);
    } else {
        texts_are_ordered_by_their_first_difference(start.drop_first(), a, b);
        assert((start + a).drop_first() =~= start.drop_first() + a);
        assert((start + b).drop_first() =~= start.drop_first() + b);
    }
}

/// What fits into a number of bytes is the longest start of a text that does: it takes no more, and with
/// the next character it would.
pub proof fn a_cut_is_as_long_as_fits(s: Seq<char>, room: nat)
    ensures
        cut(s, room).is_prefix_of(s),
        bytes_of(cut(s, room)) <= room,
        cut(s, room).len() < s.len() ==> bytes_of(cut(s, room)) + size(s[cut(s, room).len() as int])
            > room,
    decreases s.len(),
{
    lemma_split(s, room);
    if s.len() > 0 && size(s[0]) <= room {
        let rest = s.skip(1);
        let left = (room - size(s[0])) as nat;
        a_cut_is_as_long_as_fits(rest, left);
        let inner = cut(rest, left);
        lemma_bytes_add(seq![s[0]], inner);
        assert(seq![s[0]].drop_last() =~= Seq::empty());
        reveal_with_fuel(bytes_of, 2);
        assert(bytes_of(seq![s[0]]) == size(s[0]));
        if inner.len() < rest.len() {
            assert(rest[inner.len() as int] == s[inner.len() as int + 1]);
        }
    }
}

} // verus!
