//! The conversation as it is displayed: questions, answers, activity, notices.
use crate::codec::{compact, compact_text, pretty, pretty_text};
use crate::json::{field, items_of, no_members, text_of, views, Json, JsonView, Object};
use crate::text::{join_all, joined, same, texts};
use vstd::hash_map::StringHashMap;
use vstd::prelude::*;
use vstd::string::*;

verus! {

/// What an entry of the conversation is.
#[derive(Clone, Copy, Debug, PartialEq, Eq, Structural)]
pub enum Kind {
    User,
    Answer,
    Activity,
    Notice,
}

/// What the user decides on where an item asks for approval. Nothing outside of this module can set
/// it.
#[derive(Debug)]
pub struct Details {
    text: Option<String>,
}

impl Details {
    /// What it holds.
    pub closed spec fn view(&self) -> Option<Seq<char>> {
        match self.text {
            Some(text) => Some(text@),
            None => None,
        }
    }
}

/// One entry of the conversation.
#[derive(Debug)]
pub struct Entry {
    pub kind: Kind,
    pub label: String,
    pub text: String,
    pub approval_details: Details,
}

/// What an entry holds.
#[verifier::ext_equal]
pub struct EntryView {
    pub kind: Kind,
    pub label: Seq<char>,
    pub text: Seq<char>,
    pub approval: Option<Seq<char>>,
}

/// The place of the entry of each item, by key. Nothing outside of this module can set it.
pub struct Indices {
    places: StringHashMap<usize>,
}

impl Indices {
    /// What it holds.
    pub closed spec fn view(&self) -> Map<Seq<char>, nat> {
        self.places@.map_values(|place: usize| place as nat)
    }
}

/// Display state only. Never feeds filtered content back to the Codex engine.
pub struct Conversation {
    pub entries: Vec<Entry>,
    pub indices: Indices,
    pub revision: u64,
}

/// What a conversation holds: its entries, and the entry of each item by key.
#[verifier::ext_equal]
pub struct ConversationView {
    pub entries: Seq<EntryView>,
    pub index: Map<Seq<char>, nat>,
    pub revision: u64,
}

impl Entry {
    /// What the entry holds.
    pub open spec fn view(&self) -> EntryView {
        EntryView {
            kind: self.kind,
            label: self.label@,
            text: self.text@,
            approval: self.approval_details@,
        }
    }
}

impl Clone for Entry {
    /// An entry that holds the same.
    fn clone(&self) -> (r: Entry)
        ensures
            r@ == self@,
    {
        Entry {
            kind: self.kind,
            label: self.label.clone(),
            text: self.text.clone(),
            approval_details: Details {
                text: match &self.approval_details.text {
                    Some(details) => Some(details.clone()),
                    None => None,
                },
            },
        }
    }
}

/// What a sequence of entries holds.
pub open spec fn entry_views(entries: Seq<Entry>) -> Seq<EntryView> {
    entries.map_values(|e: Entry| e@)
}

impl Conversation {
    /// What the conversation holds.
    pub open spec fn view(&self) -> ConversationView {
        ConversationView {
            entries: entry_views(self.entries@),
            index: self.indices@,
            revision: self.revision,
        }
    }
}

impl ConversationView {
    /// Every key leads to an entry of its own, and the key of no item to no approval details.
    pub open spec fn wf(self) -> bool {
        &&& forall|k: Seq<char>| #[trigger]
            self.index.dom().contains(k) ==> self.index[k] < self.entries.len()
        &&& forall|j: Seq<char>, k: Seq<char>|
            self.index.dom().contains(j) && self.index.dom().contains(k) && j != k
                ==> #[trigger] self.index[j] != #[trigger] self.index[k]
        &&& self.index.dom().contains("/"@) ==> self.entries[self.index["/"@] as int].approval
            is None
    }
}

// ---------------------------------------------------------------------------
// What each message does
// ---------------------------------------------------------------------------

/// The next revision; the count starts over after the greatest number.
pub open spec fn next_revision(revision: u64) -> u64 {
    if revision == u64::MAX {
        0
    } else {
        (revision + 1) as u64
    }
}

/// The text of a text value, and nothing for any other value.
pub open spec fn text_or_empty(v: JsonView) -> Seq<char> {
    match text_of(v) {
        Some(text) => text,
        None => Seq::empty(),
    }
}

/// The message of an error, or the whole error where it has none.
pub open spec fn error_message(v: JsonView) -> Seq<char> {
    match text_of(field(v, "message"@)) {
        Some(text) => text,
        None => compact_text(v),
    }
}

/// One part of a question.
pub open spec fn user_part(item: JsonView) -> Seq<char> {
    let name = text_or_empty(field(item, "type"@));
    if name == "text"@ {
        text_or_empty(field(item, "text"@))
    } else if name == "image"@ {
        "[Image]"@
    } else if name == "localImage"@ {
        "[Image: "@ + text_or_empty(field(item, "path"@)) + "]"@
    } else {
        compact_text(item)
    }
}

/// The text of a question.
pub open spec fn user_message(content: JsonView) -> Seq<char> {
    match items_of(content) {
        Some(items) => joined(items.map_values(|item: JsonView| user_part(item)), "\n"@),
        None => Seq::empty(),
    }
}

/// What the user decides on when an item asks for approval: never its output.
pub open spec fn approval_of(item: JsonView) -> Option<Seq<char>> {
    let name = text_or_empty(field(item, "type"@));
    if name == "commandExecution"@ {
        Some(
            pretty_text(
                JsonView::Object(
                    no_members().insert("command"@, field(item, "command"@)).insert(
                        "cwd"@,
                        field(item, "cwd"@),
                    ),
                ),
            ),
        )
    } else if name == "fileChange"@ {
        Some(
            pretty_text(
                JsonView::Object(no_members().insert("changes"@, field(item, "changes"@))),
            ),
        )
    } else {
        None
    }
}

/// The kind of the entry of an item.
pub open spec fn item_kind(item: JsonView) -> Kind {
    let name = text_or_empty(field(item, "type"@));
    if name == "userMessage"@ {
        Kind::User
    } else if name == "agentMessage"@ {
        if field(item, "phase"@) == JsonView::Text("commentary"@) {
            Kind::Activity
        } else {
            Kind::Answer
        }
    } else if name == "plan"@ || name == "exitedReviewMode"@ {
        Kind::Answer
    } else {
        Kind::Activity
    }
}

/// The label of the entry of an item.
pub open spec fn item_label(item: JsonView) -> Seq<char> {
    let name = text_or_empty(field(item, "type"@));
    if name == "userMessage"@ {
        "You"@
    } else if name == "agentMessage"@ {
        "Codex"@
    } else if name == "plan"@ {
        "Plan"@
    } else if name == "exitedReviewMode"@ {
        "Review"@
    } else if name == "commandExecution"@ {
        "Command · "@ + text_or_empty(field(item, "status"@))
    } else {
        name
    }
}

/// The text of the entry of an item.
pub open spec fn item_text(item: JsonView) -> Seq<char> {
    let name = text_or_empty(field(item, "type"@));
    if name == "userMessage"@ {
        user_message(field(item, "content"@))
    } else if name == "agentMessage"@ || name == "plan"@ {
        text_or_empty(field(item, "text"@))
    } else if name == "exitedReviewMode"@ {
        text_or_empty(field(item, "review"@))
    } else if name == "commandExecution"@ {
        "$ "@ + text_or_empty(field(item, "command"@)) + "\n"@ + text_or_empty(field(item, "cwd"@))
            + "\n"@ + text_or_empty(field(item, "aggregatedOutput"@))
    } else {
        pretty_text(item)
    }
}

/// The entry of an item.
pub open spec fn item_entry(item: JsonView) -> EntryView {
    EntryView {
        kind: item_kind(item),
        label: item_label(item),
        text: item_text(item),
        approval: approval_of(item),
    }
}

/// The key under which an item of a turn is known.
pub open spec fn item_key(turn_id: Seq<char>, id: Seq<char>) -> Seq<char> {
    turn_id + "/"@ + id
}

/// The entries that the display shows: all of them, or all but activity.
pub open spec fn displayed(entries: Seq<EntryView>, expanded: bool) -> Seq<EntryView> {
    entries.filter(|e: EntryView| expanded || e.kind != Kind::Activity)
}

impl ConversationView {
    /// With one more notice.
    pub open spec fn noticed(self, text: Seq<char>) -> ConversationView {
        ConversationView {
            entries: self.entries.push(
                EntryView { kind: Kind::Notice, label: "Notice"@, text, approval: None },
            ),
            index: self.index,
            revision: next_revision(self.revision),
        }
    }

    /// With the entry of an item: in place of the one it had, or behind all others.
    pub open spec fn with_entry(self, key: Seq<char>, entry: EntryView) -> ConversationView {
        if self.index.dom().contains(key) {
            ConversationView {
                entries: self.entries.update(self.index[key] as int, entry),
                index: self.index,
                revision: next_revision(self.revision),
            }
        } else {
            ConversationView {
                entries: self.entries.push(entry),
                index: self.index.insert(key, self.entries.len()),
                revision: next_revision(self.revision),
            }
        }
    }

    /// With an item of a turn. One without an id is left out.
    pub open spec fn with_item(self, turn_id: Seq<char>, item: JsonView) -> ConversationView {
        let id = text_or_empty(field(item, "id"@));
        if id.len() == 0 {
            self
        } else {
            self.with_entry(item_key(turn_id, id), item_entry(item))
        }
    }

    /// With more text for an item, which gets an entry if it has none.
    pub open spec fn with_delta(
        self,
        params: JsonView,
        kind: Kind,
        label: Seq<char>,
    ) -> ConversationView {
        let key = item_key(
            text_or_empty(field(params, "turnId"@)),
            text_or_empty(field(params, "itemId"@)),
        );
        let more = text_or_empty(field(params, "delta"@));
        let before = if self.index.dom().contains(key) {
            self.entries[self.index[key] as int]
        } else {
            EntryView { kind, label, text: Seq::empty(), approval: None }
        };
        self.with_entry(key, EntryView { text: before.text + more, ..before })
    }

    /// With the items of a turn, one after the other.
    pub open spec fn with_items(self, turn_id: Seq<char>, items: Seq<JsonView>) -> ConversationView
        decreases items.len(),
    {
        if items.len() == 0 {
            self
        } else {
            self.with_items(turn_id, items.drop_last()).with_item(turn_id, items.last())
        }
    }

    /// With the items of a sequence of turns, one turn after the other.
    pub open spec fn with_turns(self, turns: Seq<JsonView>) -> ConversationView
        decreases turns.len(),
    {
        if turns.len() == 0 {
            self
        } else {
            let earlier = self.with_turns(turns.drop_last());
            match items_of(field(turns.last(), "items"@)) {
                Some(items) => earlier.with_items(
                    text_or_empty(field(turns.last(), "id"@)),
                    items,
                ),
                None => earlier,
            }
        }
    }

    /// With the items of a saved thread.
    pub open spec fn restored(self, thread: JsonView) -> ConversationView {
        match items_of(field(thread, "turns"@)) {
            Some(turns) => self.with_turns(turns),
            None => self,
        }
    }

    /// After a message from the server.
    pub open spec fn after(self, message: JsonView) -> ConversationView {
        let params = field(message, "params"@);
        let method = text_or_empty(field(message, "method"@));
        if method == "item/started"@ || method == "item/completed"@ {
            self.with_item(text_or_empty(field(params, "turnId"@)), field(params, "item"@))
        } else if method == "item/agentMessage/delta"@ || method == "item/plan/delta"@ {
            self.with_delta(params, Kind::Answer, "Codex"@)
        } else if method == "item/commandExecution/outputDelta"@ {
            self.with_delta(params, Kind::Activity, "Command"@)
        } else if method == "item/reasoning/summaryTextDelta"@ || method
            == "item/reasoning/textDelta"@ {
            self.with_delta(params, Kind::Activity, "Reasoning"@)
        } else if method == "error"@ {
            self.noticed(error_message(field(params, "error"@)))
        } else if method == "warning"@ {
            self.noticed(text_or_empty(field(params, "message"@)))
        } else if method == "configWarning"@ {
            self.noticed(
                text_or_empty(field(params, "summary"@)) + "\n"@ + text_or_empty(
                    field(params, "details"@),
                ),
            )
        } else {
            self
        }
    }

    /// The entries that the display shows.
    pub open spec fn shown(self, expanded: bool) -> Seq<EntryView> {
        displayed(self.entries, expanded)
    }

    /// How many entries are hidden unless the display is expanded.
    pub open spec fn hidden(self) -> nat {
        self.entries.filter(|e: EntryView| e.kind == Kind::Activity).len()
    }

    /// What the user decides on for an item.
    pub open spec fn details_of(self, turn_id: Seq<char>, item_id: Seq<char>) -> Option<
        Seq<char>,
    > {
        let key = item_key(turn_id, item_id);
        if self.index.dom().contains(key) {
            self.entries[self.index[key] as int].approval
        } else {
            None
        }
    }
}

// ---------------------------------------------------------------------------
// Reading values
// ---------------------------------------------------------------------------

/// The text of a text value, and nothing for any other value.
pub fn string(value: &Json) -> (r: &str)
    ensures
        r@ == text_or_empty(value@),
{
    match value.as_str() {
        Some(text) => text,
        None => {
            proof {
                reveal_strlit("");
                assert(""@ =~= Seq::empty());
            }
            ""
        },
    }
}

/// The message of an error, or the whole error where it has none.
pub fn error_text(value: &Json) -> (r: String)
    ensures
        r@ == error_message(value@),
{
    match value.at("message").as_str() {
        Some(text) => text.to_owned(),
        None => compact(value),
    }
}

/// The text of a question.
pub fn user_text(content: &Json) -> (r: String)
    ensures
        r@ == user_message(content@),
{
    match content.as_array() {
        Some(items) => {
            let mut parts: Vec<String> = Vec::new();
            for i in 0..items.len()
                invariant
                    parts@.len() == i,
                    forall|k: int|
                        0 <= k < i ==> (#[trigger] parts@[k])@ == user_part(items@[k]@),
            {
                let item = &items[i];
                let name = string(item.at("type"));
                let part = if same(name, "text") {
                    string(item.at("text")).to_owned()
                } else if same(name, "image") {
                    "[Image]".to_owned()
                } else if same(name, "localImage") {
                    let mut image = "[Image: ".to_owned();
                    image.append(string(item.at("path")));
                    image.append("]");
                    image
                } else {
                    compact(item)
                };
                parts.push(part);
            }
            proof {
                assert(texts(parts@) =~= views(items@).map_values(
                    |item: JsonView| user_part(item),
                ));
            }
            join_all(&parts, "\n")
        },
        None => String::new(),
    }
}

/// What the user decides on when an item asks for approval.
fn approval_text(item: &Json) -> (r: Option<String>)
    ensures
        match r {
            Some(text) => approval_of(item@) == Some(text@),
            None => approval_of(item@) is None,
        },
{
    let name = string(item.at("type"));
    if same(name, "commandExecution") {
        let details = Json::Object(
            Object::new().with("command", item.at("command").clone()).with(
                "cwd",
                item.at("cwd").clone(),
            ),
        );
        Some(pretty(&details))
    } else if same(name, "fileChange") {
        let details = Json::Object(Object::new().with("changes", item.at("changes").clone()));
        Some(pretty(&details))
    } else {
        None
    }
}

/// The entry of an item.
fn entry_of(item: &Json) -> (r: Entry)
    ensures
        r@ == item_entry(item@),
{
    let name = string(item.at("type"));
    let (kind, label, text) = if same(name, "userMessage") {
        (Kind::User, "You".to_owned(), user_text(item.at("content")))
    } else if same(name, "agentMessage") {
        let kind = if item.at("phase").is_text("commentary") {
            Kind::Activity
        } else {
            Kind::Answer
        };
        (kind, "Codex".to_owned(), string(item.at("text")).to_owned())
    } else if same(name, "plan") {
        (Kind::Answer, "Plan".to_owned(), string(item.at("text")).to_owned())
    } else if same(name, "exitedReviewMode") {
        (Kind::Answer, "Review".to_owned(), string(item.at("review")).to_owned())
    } else if same(name, "commandExecution") {
        let mut label = "Command · ".to_owned();
        label.append(string(item.at("status")));
        let mut text = "$ ".to_owned();
        text.append(string(item.at("command")));
        text.append("\n");
        text.append(string(item.at("cwd")));
        text.append("\n");
        text.append(string(item.at("aggregatedOutput")));
        (Kind::Activity, label, text)
    } else {
        (Kind::Activity, name.to_owned(), pretty(item))
    };
    let approval_details = Details { text: approval_text(item) };
    Entry { kind, label, text, approval_details }
}

// ---------------------------------------------------------------------------
// The conversation
// ---------------------------------------------------------------------------

impl Default for Conversation {
    /// A conversation without entries.
    fn default() -> (r: Conversation)
        ensures
            r@.entries =~= Seq::empty(),
            r@.index =~= Map::empty(),
            r@.revision == 0,
            r@.wf(),
    {
        Conversation { entries: Vec::new(), indices: Indices { places: StringHashMap::new() }, revision: 0 }
    }
}

impl Conversation {
    /// The key under which an item of a turn is known.
    pub fn key(turn_id: &str, id: &str) -> (r: String)
        ensures
            r@ == item_key(turn_id@, id@),
    {
        let mut key = turn_id.to_owned();
        key.append("/");
        key.append(id);
        key
    }

    /// Adds a notice.
    pub fn notice(&mut self, text: &str)
        requires
            old(self)@.wf(),
        ensures
            final(self)@ == old(self)@.noticed(text@),
            final(self)@.wf(),
    {
        let entry = Entry {
            kind: Kind::Notice,
            label: "Notice".to_owned(),
            text: text.to_owned(),
            approval_details: Details { text: None },
        };
        self.entries.push(entry);
        self.revision = self.revision.wrapping_add(1);
        assert(self@.entries =~= old(self)@.noticed(text@).entries);
    }

    /// Puts the entry of an item in place of the one it had, or behind all others.
    fn put(&mut self, key: String, entry: Entry)
        requires
            old(self)@.wf(),
            key@ == "/"@ ==> entry@.approval is None,
        ensures
            final(self)@ == old(self)@.with_entry(key@, entry@),
            final(self)@.wf(),
    {
        let found = match self.indices.places.get(key.as_str()) {
            Some(index) => Some(*index),
            None => None,
        };
        match found {
            Some(index) => {
                self.entries.set(index, entry);
            },
            None => {
                let index = self.entries.len();
                self.indices.places.insert(key, index);
                self.entries.push(entry);
            },
        }
        self.revision = self.revision.wrapping_add(1);
        assert(self@.entries =~= old(self)@.with_entry(key@, entry@).entries);
        assert(self@.index =~= old(self)@.with_entry(key@, entry@).index);
    }

    /// Adds an item of a turn, or replaces what was known of it.
    pub fn item(&mut self, turn_id: &str, item: &Json)
        requires
            old(self)@.wf(),
        ensures
            final(self)@ == old(self)@.with_item(turn_id@, item@),
            final(self)@.wf(),
    {
        let id = string(item.at("id"));
        if id.is_empty() {
            return;
        }
        let key = Self::key(turn_id, id);
        let entry = entry_of(item);
        proof {
            reveal_strlit("/");
            assert(key@.len() >= 2);
        }
        self.put(key, entry);
    }

    /// Adds text to an item, which gets an entry if it has none.
    pub fn delta(&mut self, params: &Json, kind: Kind, label: &str)
        requires
            old(self)@.wf(),
        ensures
            final(self)@ == old(self)@.with_delta(params@, kind, label@),
            final(self)@.wf(),
    {
        let key = Self::key(string(params.at("turnId")), string(params.at("itemId")));
        let mut entry = match self.indices.places.get(key.as_str()) {
            Some(index) => self.entries[*index].clone(),
            None => Entry {
                kind,
                label: label.to_owned(),
                text: String::new(),
                approval_details: Details { text: None },
            },
        };
        entry.text.append(string(params.at("delta")));
        self.put(key, entry);
    }

    /// Adds the items of a saved thread.
    pub fn restore(&mut self, thread: &Json)
        requires
            old(self)@.wf(),
        ensures
            final(self)@ == old(self)@.restored(thread@),
            final(self)@.wf(),
    {
        if let Some(turns) = thread.at("turns").as_array() {
            let ghost all = views(turns@);
            assert(all.take(0) =~= Seq::empty());
            for i in 0..turns.len()
                invariant
                    all == views(turns@),
                    self@.wf(),
                    self@ == old(self)@.with_turns(all.take(i as int)),
            {
                let turn = &turns[i];
                assert(all.take(i + 1).drop_last() =~= all.take(i as int));
                assert(all.take(i + 1).last() == turn@);
                if let Some(items) = turn.at("items").as_array() {
                    let ghost held = views(items@);
                    let ghost before = self@;
                    assert(held.take(0) =~= Seq::empty());
                    for j in 0..items.len()
                        invariant
                            held == views(items@),
                            self@.wf(),
                            self@ == before.with_items(
                                text_or_empty(field(turn@, "id"@)),
                                held.take(j as int),
                            ),
                    {
                        assert(held.take(j + 1).drop_last() =~= held.take(j as int));
                        assert(held.take(j + 1).last() == items@[j as int]@);
                        self.item(string(turn.at("id")), &items[j]);
                    }
                    assert(held.take(held.len() as int) =~= held);
                }
            }
            assert(all.take(all.len() as int) =~= all);
        }
    }

    /// Takes in a message from the server.
    pub fn event(&mut self, message: &Json)
        requires
            old(self)@.wf(),
        ensures
            final(self)@ == old(self)@.after(message@),
            final(self)@.wf(),
    {
        let params = message.at("params");
        let method = string(message.at("method"));
        if same(method, "item/started") || same(method, "item/completed") {
            self.item(string(params.at("turnId")), params.at("item"));
        } else if same(method, "item/agentMessage/delta") || same(method, "item/plan/delta") {
            self.delta(params, Kind::Answer, "Codex");
        } else if same(method, "item/commandExecution/outputDelta") {
            self.delta(params, Kind::Activity, "Command");
        } else if same(method, "item/reasoning/summaryTextDelta") || same(
            method,
            "item/reasoning/textDelta",
        ) {
            self.delta(params, Kind::Activity, "Reasoning");
        } else if same(method, "error") {
            self.notice(error_text(params.at("error")).as_str());
        } else if same(method, "warning") {
            self.notice(string(params.at("message")));
        } else if same(method, "configWarning") {
            let mut text = string(params.at("summary")).to_owned();
            text.append("\n");
            text.append(string(params.at("details")));
            self.notice(text.as_str());
        }
    }

    /// The entries that the display shows: all of them, or all but activity.
    pub fn visible(&self, expanded: bool) -> (r: Vec<&Entry>)
        ensures
            r@.map_values(|e: &Entry| e@) == self@.shown(expanded),
    {
        let mut shown: Vec<&Entry> = Vec::new();
        let ghost keep = |e: EntryView| expanded || e.kind != Kind::Activity;
        proof {
            reveal(Seq::filter);
            assert(self@.entries.take(0) =~= Seq::empty());
        }
        for i in 0..self.entries.len()
            invariant
                keep == (|e: EntryView| expanded || e.kind != Kind::Activity),
                shown@.map_values(|e: &Entry| e@) == self@.entries.take(i as int).filter(keep),
        {
            let entry = &self.entries[i];
            proof {
                reveal(Seq::filter);
                assert(self@.entries.take(i + 1).drop_last() =~= self@.entries.take(i as int));
                assert(self@.entries.take(i + 1).last() == entry@);
            }
            if expanded || entry.kind != Kind::Activity {
                let ghost before = shown@;
                shown.push(entry);
                assert(shown@.map_values(|e: &Entry| e@) =~= before.map_values(
                    |e: &Entry| e@,
                ).push(entry@));
            }
        }
        assert(self@.entries.take(self@.entries.len() as int) =~= self@.entries);
        shown
    }

    /// How many entries are hidden unless the display is expanded.
    pub fn hidden_count(&self) -> (r: usize)
        ensures
            r == self@.hidden(),
    {
        let mut count: usize = 0;
        let ghost activity = |e: EntryView| e.kind == Kind::Activity;
        proof {
            reveal(Seq::filter);
            assert(self@.entries.take(0) =~= Seq::empty());
        }
        for i in 0..self.entries.len()
            invariant
                activity == (|e: EntryView| e.kind == Kind::Activity),
                count <= i,
                count == self@.entries.take(i as int).filter(activity).len(),
        {
            proof {
                reveal(Seq::filter);
                assert(self@.entries.take(i + 1).drop_last() =~= self@.entries.take(i as int));
                assert(self@.entries.take(i + 1).last() == self.entries@[i as int]@);
            }
            if self.entries[i].kind == Kind::Activity {
                count = count + 1;
            }
        }
        assert(self@.entries.take(self@.entries.len() as int) =~= self@.entries);
        count
    }

    /// What the user decides on for an item, and no output of it.
    pub fn details(&self, turn_id: &str, item_id: &str) -> (r: Option<&str>)
        requires
            self@.wf(),
        ensures
            match r {
                Some(text) => self@.details_of(turn_id@, item_id@) == Some(text@),
                None => self@.details_of(turn_id@, item_id@) is None,
            },
    {
        let key = Self::key(turn_id, item_id);
        match self.indices.places.get(key.as_str()) {
            Some(index) => match &self.entries[*index].approval_details.text {
                Some(text) => Some(text.as_str()),
                None => None,
            },
            None => None,
        }
    }
}

// ---------------------------------------------------------------------------
// Laws
// ---------------------------------------------------------------------------

/// The key of the item that a message is about.
pub open spec fn concerned(message: JsonView) -> Option<Seq<char>> {
    let params = field(message, "params"@);
    let method = text_or_empty(field(message, "method"@));
    let turn_id = text_or_empty(field(params, "turnId"@));
    if method == "item/started"@ || method == "item/completed"@ {
        let id = text_or_empty(field(field(params, "item"@), "id"@));
        if id.len() == 0 {
            None
        } else {
            Some(item_key(turn_id, id))
        }
    } else if method == "item/agentMessage/delta"@ || method == "item/plan/delta"@ || method
        == "item/commandExecution/outputDelta"@ || method == "item/reasoning/summaryTextDelta"@
        || method == "item/reasoning/textDelta"@ {
        Some(item_key(turn_id, text_or_empty(field(params, "itemId"@))))
    } else {
        None
    }
}

/// Hiding changes only the display. Expanded, the display shows every entry, in order; otherwise
/// it shows no activity, and every entry is either shown or counted as hidden.
pub proof fn hiding_changes_only_the_display(c: ConversationView)
    ensures
        c.shown(true) == c.entries,
        forall|i: int|
            0 <= i < c.shown(false).len() ==> (#[trigger] c.shown(false)[i]).kind
                != Kind::Activity,
        forall|e: EntryView|
            c.entries.contains(e) && e.kind != Kind::Activity ==> #[trigger] c.shown(
                false,
            ).contains(e),
        c.shown(false).len() + c.hidden() == c.entries.len(),
{
    lemma_shown(c.entries);
}

proof fn lemma_shown(entries: Seq<EntryView>)
    ensures
        displayed(entries, true) == entries,
        forall|i: int|
            0 <= i < displayed(entries, false).len() ==> (#[trigger] displayed(
                entries,
                false,
            )[i]).kind != Kind::Activity,
        forall|e: EntryView|
            entries.contains(e) && e.kind != Kind::Activity ==> #[trigger] displayed(
                entries,
                false,
            ).contains(e),
        displayed(entries, false).len() + entries.filter(
            |e: EntryView| e.kind == Kind::Activity,
        ).len() == entries.len(),
    decreases entries.len(),
{
    reveal(Seq::filter);
    if entries.len() > 0 {
        let rest = entries.drop_last();
        lemma_shown(rest);
        assert(rest.push(entries.last()) =~= entries);
        assert forall|e: EntryView| entries.contains(e) && e.kind != Kind::Activity implies #[trigger] displayed(
            entries,
            false,
        ).contains(e) by {
            let i = choose|i: int| 0 <= i < entries.len() && entries[i] == e;
            if i < rest.len() {
                assert(rest[i] == e);
                assert(displayed(rest, false).contains(e));
                let k = choose|k: int|
                    0 <= k < displayed(rest, false).len() && displayed(rest, false)[k] == e;
                assert(displayed(entries, false)[k] == e);
            } else {
                assert(displayed(entries, false).last() == e);
            }
        }
    }
}

/// Whether a message is about the item of the entry at a place.
pub open spec fn touches(c: ConversationView, message: JsonView, i: int) -> bool {
    match concerned(message) {
        Some(key) => c.index.dom().contains(key) && c.index[key] == i,
        None => false,
    }
}

/// No message removes an entry, and none changes the entry of an item it is not about: earlier
/// questions, answers and notices stay, however many messages follow.
pub proof fn earlier_entries_stay(c: ConversationView, messages: Seq<JsonView>, i: int)
    requires
        c.wf(),
        0 <= i < c.entries.len(),
        forall|j: int| 0 <= j < messages.len() ==> !touches(c, #[trigger] messages[j], i),
    ensures
        i < after_all(c, messages).entries.len(),
        after_all(c, messages).entries[i] == c.entries[i],
{
    lemma_entries_stay(c, messages, i);
}

/// A message leaves a sound conversation sound, and removes no entry.
proof fn lemma_after(c: ConversationView, message: JsonView)
    requires
        c.wf(),
    ensures
        c.after(message).wf(),
        c.entries.len() <= c.after(message).entries.len(),
{
    reveal_strlit("/");
    assert("/"@.len() == 1);
}

proof fn lemma_entries_stay(c: ConversationView, messages: Seq<JsonView>, i: int)
    requires
        c.wf(),
        0 <= i < c.entries.len(),
        forall|j: int| 0 <= j < messages.len() ==> !touches(c, #[trigger] messages[j], i),
    ensures
        after_all(c, messages).wf(),
        c.entries.len() <= after_all(c, messages).entries.len(),
        after_all(c, messages).entries[i] == c.entries[i],
        forall|key: Seq<char>| #[trigger]
            after_all(c, messages).index.dom().contains(key) && after_all(
                c,
                messages,
            ).index[key] == i ==> c.index.dom().contains(key) && c.index[key] == i,
    decreases messages.len(),
{
    if messages.len() > 0 {
        let rest = messages.drop_last();
        assert forall|j: int| 0 <= j < rest.len() implies !touches(c, #[trigger] rest[j], i) by {
            assert(rest[j] == messages[j]);
        }
        lemma_entries_stay(c, rest, i);
        assert(!touches(c, messages[messages.len() - 1], i));
        let before = after_all(c, rest);
        lemma_after(before, messages.last());
        assert(after_all(c, messages) == before.after(messages.last()));
    }
}

/// Whether a message streams text for the item with a key.
pub open spec fn streams(message: JsonView, key: Seq<char>) -> bool {
    let method = text_or_empty(field(message, "method"@));
    &&& concerned(message) == Some(key)
    &&& method != "item/started"@
    &&& method != "item/completed"@
}

/// Once the whole item is there, it makes no difference what was streamed of it before.
pub proof fn a_completed_item_replaces_its_deltas(
    c: ConversationView,
    messages: Seq<JsonView>,
    turn_id: Seq<char>,
    item: JsonView,
)
    requires
        c.wf(),
        text_or_empty(field(item, "id"@)).len() > 0,
        forall|i: int|
            0 <= i < messages.len() ==> streams(
                #[trigger] messages[i],
                item_key(turn_id, text_or_empty(field(item, "id"@))),
            ),
    ensures
        after_all(c, messages).with_item(turn_id, item).entries == c.with_item(
            turn_id,
            item,
        ).entries,
        after_all(c, messages).with_item(turn_id, item).index == c.with_item(turn_id, item).index,
{
    let key = item_key(turn_id, text_or_empty(field(item, "id"@)));
    lemma_streamed(c, messages, key);
    let streamed = after_all(c, messages);
    assert(streamed.with_item(turn_id, item).entries =~= c.with_item(turn_id, item).entries);
    assert(streamed.with_item(turn_id, item).index =~= c.with_item(turn_id, item).index);
}

/// Streamed text changes the entry of its item, or adds that entry, and nothing else.
proof fn lemma_streamed(c: ConversationView, messages: Seq<JsonView>, key: Seq<char>)
    requires
        c.wf(),
        forall|i: int| 0 <= i < messages.len() ==> streams(#[trigger] messages[i], key),
    ensures
        after_all(c, messages).index == (if messages.len() == 0 || c.index.dom().contains(key) {
            c.index
        } else {
            c.index.insert(key, c.entries.len())
        }),
        after_all(c, messages).entries.len() == c.entries.len() + (if messages.len() == 0
            || c.index.dom().contains(key) {
            0int
        } else {
            1int
        }),
        forall|i: int|
            0 <= i < c.entries.len() && (c.index.dom().contains(key) ==> i != c.index[key])
                ==> after_all(c, messages).entries[i] == #[trigger] c.entries[i],
    decreases messages.len(),
{
    if messages.len() > 0 {
        let rest = messages.drop_last();
        assert forall|i: int| 0 <= i < rest.len() implies streams(#[trigger] rest[i], key) by {
            assert(rest[i] == messages[i]);
        }
        lemma_streamed(c, rest, key);
        let before = after_all(c, rest);
        let last = messages.last();
        assert(streams(messages[messages.len() - 1], key));
        assert(after_all(c, messages) == before.after(last));
        assert(after_all(c, messages).index =~= if before.index.dom().contains(key) {
            before.index
        } else {
            before.index.insert(key, before.entries.len())
        });
        if !c.index.dom().contains(key) {
            assert(after_all(c, messages).index =~= c.index.insert(
                key,
                c.entries.len(),
            ));
        }
    }
}

/// The texts of a sequence of deltas, one behind the other.
pub open spec fn streamed(params: Seq<JsonView>) -> Seq<char>
    decreases params.len(),
{
    if params.len() == 0 {
        Seq::empty()
    } else {
        streamed(params.drop_last()) + text_or_empty(field(params.last(), "delta"@))
    }
}

impl ConversationView {
    /// With a sequence of deltas, one after the other.
    pub open spec fn with_deltas(
        self,
        params: Seq<JsonView>,
        kind: Kind,
        label: Seq<char>,
    ) -> ConversationView
        decreases params.len(),
    {
        if params.len() == 0 {
            self
        } else {
            self.with_deltas(params.drop_last(), kind, label).with_delta(
                params.last(),
                kind,
                label,
            )
        }
    }
}

/// The deltas of an item add up. If it had an entry, its text grows by all of theirs, and its kind, its
/// label and its details stay; otherwise one entry is added, with all of their text. No other entry
/// changes.
pub proof fn deltas_add_up(
    c: ConversationView,
    params: Seq<JsonView>,
    kind: Kind,
    label: Seq<char>,
    turn_id: Seq<char>,
    item_id: Seq<char>,
)
    requires
        c.wf(),
        params.len() > 0,
        forall|i: int|
            0 <= i < params.len() ==> text_or_empty(field(#[trigger] params[i], "turnId"@))
                == turn_id && text_or_empty(field(params[i], "itemId"@)) == item_id,
    ensures
        ({
            let key = item_key(turn_id, item_id);
            let grown = c.with_deltas(params, kind, label);
            if c.index.dom().contains(key) {
                let place = c.index[key] as int;
                &&& grown.index == c.index
                &&& grown.entries == c.entries.update(
                    place,
                    EntryView {
                        text: c.entries[place].text + streamed(params),
                        ..c.entries[place]
                    },
                )
            } else {
                &&& grown.index == c.index.insert(key, c.entries.len())
                &&& grown.entries == c.entries.push(
                    EntryView { kind, label, text: streamed(params), approval: None },
                )
            }
        }),
    decreases params.len(),
{
    let key = item_key(turn_id, item_id);
    let rest = params.drop_last();
    let last = params.last();
    let more = text_or_empty(field(last, "delta"@));
    assert(last == params[params.len() - 1]);
    let before = c.with_deltas(rest, kind, label);
    let grown = c.with_deltas(params, kind, label);
    assert(grown == before.with_delta(last, kind, label));
    if rest.len() == 0 {
        assert(streamed(rest) =~= Seq::empty());
        assert(streamed(params) =~= more);
        assert(Seq::<char>::empty() + more =~= more);
    } else {
        assert forall|i: int| 0 <= i < rest.len() implies text_or_empty(
            field(#[trigger] rest[i], "turnId"@),
        ) == turn_id && text_or_empty(field(rest[i], "itemId"@)) == item_id by {
            assert(rest[i] == params[i]);
        }
        deltas_add_up(c, rest, kind, label, turn_id, item_id);
        if c.index.dom().contains(key) {
            let text = c.entries[c.index[key] as int].text;
            assert(text + streamed(rest) + more =~= text + streamed(params));
        }
    }
}

/// The text that a sequence of messages streams for the item with a key.
pub open spec fn streamed_to(messages: Seq<JsonView>, key: Seq<char>) -> Seq<char>
    decreases messages.len(),
{
    if messages.len() == 0 {
        Seq::empty()
    } else if streams(messages.last(), key) {
        streamed_to(messages.drop_last(), key) + text_or_empty(
            field(field(messages.last(), "params"@), "delta"@),
        )
    } else {
        streamed_to(messages.drop_last(), key)
    }
}

/// What is streamed for an item adds up also where messages about other items, and notices, come in
/// between: its entry keeps its place, its kind, its label and its details.
pub proof fn streamed_text_adds_up(c: ConversationView, messages: Seq<JsonView>, key: Seq<char>)
    requires
        c.wf(),
        c.index.dom().contains(key),
        forall|j: int|
            0 <= j < messages.len() && concerned(#[trigger] messages[j]) == Some(key) ==> streams(
                messages[j],
                key,
            ),
    ensures
        after_all(c, messages).wf(),
        after_all(c, messages).index.dom().contains(key),
        after_all(c, messages).index[key] == c.index[key],
        ({
            let entry = c.entries[c.index[key] as int];
            after_all(c, messages).entries[c.index[key] as int] == EntryView {
                text: entry.text + streamed_to(messages, key),
                ..entry
            }
        }),
    decreases messages.len(),
{
    let entry = c.entries[c.index[key] as int];
    if messages.len() == 0 {
        assert(entry.text + streamed_to(messages, key) =~= entry.text);
    } else {
        let rest = messages.drop_last();
        let last = messages.last();
        assert forall|j: int|
            0 <= j < rest.len() && concerned(#[trigger] rest[j]) == Some(key) implies streams(
            rest[j],
            key,
        ) by {
            assert(rest[j] == messages[j]);
        }
        streamed_text_adds_up(c, rest, key);
        assert(last == messages[messages.len() - 1]);
        let before = after_all(c, rest);
        lemma_after(before, last);
        if streams(last, key) {
            let more = text_or_empty(field(field(last, "params"@), "delta"@));
            assert(entry.text + streamed_to(rest, key) + more =~= entry.text + streamed_to(
                messages,
                key,
            ));
        }
    }
}

/// What the user decides on rests on the command and its directory, or on the file changes, and
/// on nothing else of an item: no output shows in it.
pub proof fn approval_rests_on_the_request_alone(a: JsonView, b: JsonView)
    requires
        text_or_empty(field(a, "type"@)) == text_or_empty(field(b, "type"@)),
        field(a, "command"@) == field(b, "command"@),
        field(a, "cwd"@) == field(b, "cwd"@),
        field(a, "changes"@) == field(b, "changes"@),
    ensures
        approval_of(a) == approval_of(b),
{
}

/// Streamed text never changes what the user decides on.
pub proof fn deltas_leave_the_approval(
    c: ConversationView,
    params: JsonView,
    kind: Kind,
    label: Seq<char>,
    turn_id: Seq<char>,
    item_id: Seq<char>,
)
    requires
        c.wf(),
    ensures
        c.with_delta(params, kind, label).details_of(turn_id, item_id) == c.details_of(
            turn_id,
            item_id,
        ),
{
}

/// The conversation after a sequence of messages.
pub open spec fn after_all(c: ConversationView, messages: Seq<JsonView>) -> ConversationView
    decreases messages.len(),
{
    if messages.len() == 0 {
        c
    } else {
        after_all(c, messages.drop_last()).after(messages.last())
    }
}

/// The message with which an item of a turn is completed.
pub open spec fn completion(turn_id: Seq<char>, item: JsonView) -> JsonView {
    JsonView::Object(
        no_members().insert("method"@, JsonView::Text("item/completed"@)).insert(
            "params"@,
            JsonView::Object(
                no_members().insert("turnId"@, JsonView::Text(turn_id)).insert("item"@, item),
            ),
        ),
    )
}

/// The messages with which the items of a sequence of turns are completed.
pub open spec fn completions(turns: Seq<JsonView>) -> Seq<JsonView>
    decreases turns.len(),
{
    if turns.len() == 0 {
        Seq::empty()
    } else {
        let turn_id = text_or_empty(field(turns.last(), "id"@));
        match items_of(field(turns.last(), "items"@)) {
            Some(items) => completions(turns.drop_last()) + items.map_values(
                |item: JsonView| completion(turn_id, item),
            ),
            None => completions(turns.drop_last()),
        }
    }
}

/// A saved thread is displayed as it was live: restoring it gives the same conversation as the
/// messages with which its items were completed.
pub proof fn resuming_displays_as_live(c: ConversationView, thread: JsonView)
    ensures
        c.restored(thread) == match items_of(field(thread, "turns"@)) {
            Some(turns) => after_all(c, completions(turns)),
            None => c,
        },
{
    if let Some(turns) = items_of(field(thread, "turns"@)) {
        lemma_turns_as_live(c, turns);
    }
}

proof fn lemma_turns_as_live(c: ConversationView, turns: Seq<JsonView>)
    ensures
        c.with_turns(turns) == after_all(c, completions(turns)),
    decreases turns.len(),
{
    if turns.len() > 0 {
        lemma_turns_as_live(c, turns.drop_last());
        let turn_id = text_or_empty(field(turns.last(), "id"@));
        if let Some(items) = items_of(field(turns.last(), "items"@)) {
            let messages = items.map_values(|item: JsonView| completion(turn_id, item));
            lemma_items_as_live(c.with_turns(turns.drop_last()), turn_id, items);
            lemma_after_both(c, completions(turns.drop_last()), messages);
        }
    }
}

proof fn lemma_items_as_live(c: ConversationView, turn_id: Seq<char>, items: Seq<JsonView>)
    ensures
        c.with_items(turn_id, items) == after_all(
            c,
            items.map_values(|item: JsonView| completion(turn_id, item)),
        ),
    decreases items.len(),
{
    if items.len() > 0 {
        let messages = items.map_values(|item: JsonView| completion(turn_id, item));
        lemma_items_as_live(c, turn_id, items.drop_last());
        assert(messages.drop_last() =~= items.drop_last().map_values(
            |item: JsonView| completion(turn_id, item),
        ));
        assert(messages.last() == completion(turn_id, items.last()));
        reveal_strlit("method");
        reveal_strlit("params");
        reveal_strlit("turnId");
        reveal_strlit("item");
        assert("method"@[0] != "params"@[0] && "turnId"@.len() != "item"@.len());
    }
}

proof fn lemma_after_both(c: ConversationView, a: Seq<JsonView>, b: Seq<JsonView>)
    ensures
        after_all(c, a + b) == after_all(after_all(c, a), b),
    decreases b.len(),
{
    if b.len() == 0 {
        assert(a + b =~= a);
    } else {
        lemma_after_both(c, a, b.drop_last());
        assert((a + b).drop_last() =~= a + b.drop_last());
    }
}

/// Restoring a thread twice in a row leaves the entries of once.
pub proof fn restoring_twice_is_restoring_once(c: ConversationView, thread: JsonView)
    requires
        c.wf(),
    ensures
        c.restored(thread).restored(thread).entries == c.restored(thread).entries,
        c.restored(thread).restored(thread).index == c.restored(thread).index,
{
    if let Some(turns) = items_of(field(thread, "turns"@)) {
        let messages = completions(turns);
        let once = c.restored(thread);
        let twice = once.restored(thread);
        resuming_displays_as_live(c, thread);
        resuming_displays_as_live(once, thread);
        lemma_all_completions(turns);
        lemma_first_writing(c, messages);
        lemma_second_writing(once, messages);
        assert forall|i: int| 0 <= i < once.entries.len() implies twice.entries[i]
            == once.entries[i] by {
            if exists|j: int|
                0 <= j < messages.len() && touches(once, #[trigger] messages[j], i) {
                let j = choose|j: int|
                    0 <= j < messages.len() && touches(once, #[trigger] messages[j], i);
                lemma_written(messages, j);
            }
        }
        assert(twice.entries =~= once.entries);
    }
}

/// Whether a message completes an item.
spec fn completes(message: JsonView) -> bool {
    text_or_empty(field(message, "method"@)) == "item/completed"@
}

/// The entry of the last of the completed items with a key.
spec fn last_written(messages: Seq<JsonView>, key: Seq<char>) -> Option<EntryView>
    decreases messages.len(),
{
    if messages.len() == 0 {
        None
    } else if concerned(messages.last()) == Some(key) {
        Some(item_entry(field(field(messages.last(), "params"@), "item"@)))
    } else {
        last_written(messages.drop_last(), key)
    }
}

proof fn lemma_written(messages: Seq<JsonView>, j: int)
    requires
        0 <= j < messages.len(),
        concerned(messages[j]) is Some,
    ensures
        last_written(messages, concerned(messages[j])->Some_0) is Some,
    decreases messages.len(),
{
    if j < messages.len() - 1 {
        assert(messages.drop_last()[j] == messages[j]);
        lemma_written(messages.drop_last(), j);
    }
}

proof fn lemma_all_completions(turns: Seq<JsonView>)
    ensures
        forall|j: int|
            0 <= j < completions(turns).len() ==> completes(#[trigger] completions(turns)[j]),
    decreases turns.len(),
{
    if turns.len() > 0 {
        let rest = completions(turns.drop_last());
        lemma_all_completions(turns.drop_last());
        reveal_strlit("method");
        reveal_strlit("params");
        assert("method"@[0] != "params"@[0]);
        assert forall|j: int| 0 <= j < completions(turns).len() implies completes(
            #[trigger] completions(turns)[j],
        ) by {
            if j < rest.len() {
                assert(completions(turns)[j] == rest[j]);
            }
        }
    }
}

/// Completed items are known afterwards, each with the last of its entries.
proof fn lemma_first_writing(c: ConversationView, messages: Seq<JsonView>)
    requires
        c.wf(),
        forall|j: int| 0 <= j < messages.len() ==> completes(#[trigger] messages[j]),
    ensures
        after_all(c, messages).wf(),
        forall|key: Seq<char>| #[trigger]
            last_written(messages, key) is Some ==> after_all(c, messages).index.dom().contains(
                key,
            ) && after_all(c, messages).entries[after_all(c, messages).index[key] as int]
                == last_written(messages, key)->Some_0,
    decreases messages.len(),
{
    if messages.len() > 0 {
        let rest = messages.drop_last();
        assert forall|j: int| 0 <= j < rest.len() implies completes(#[trigger] rest[j]) by {
            assert(rest[j] == messages[j]);
        }
        lemma_first_writing(c, rest);
        let before = after_all(c, rest);
        assert(completes(messages[messages.len() - 1]));
        lemma_after(before, messages.last());
        assert forall|key: Seq<char>| #[trigger] last_written(messages, key) is Some implies after_all(
            c,
            messages,
        ).index.dom().contains(key) && after_all(c, messages).entries[after_all(
            c,
            messages,
        ).index[key] as int] == last_written(messages, key)->Some_0 by {
            if concerned(messages.last()) != Some(key) {
                assert(last_written(rest, key) is Some);
            }
        }
    }
}

/// Items that are known already are written in place, each with the last of its entries, and nothing
/// else changes.
proof fn lemma_second_writing(c: ConversationView, messages: Seq<JsonView>)
    requires
        c.wf(),
        forall|j: int| 0 <= j < messages.len() ==> completes(#[trigger] messages[j]),
        forall|key: Seq<char>| #[trigger]
            last_written(messages, key) is Some ==> c.index.dom().contains(key),
    ensures
        after_all(c, messages).index == c.index,
        after_all(c, messages).entries.len() == c.entries.len(),
        forall|key: Seq<char>| #[trigger]
            last_written(messages, key) is Some ==> after_all(
                c,
                messages,
            ).entries[c.index[key] as int] == last_written(messages, key)->Some_0,
        forall|i: int|
            #![trigger after_all(c, messages).entries[i]]
            0 <= i < c.entries.len() && (forall|j: int|
                0 <= j < messages.len() ==> !touches(c, #[trigger] messages[j], i)) ==> after_all(
                c,
                messages,
            ).entries[i] == c.entries[i],
    decreases messages.len(),
{
    if messages.len() > 0 {
        let rest = messages.drop_last();
        let last = messages.last();
        assert forall|j: int| 0 <= j < rest.len() implies completes(#[trigger] rest[j]) by {
            assert(rest[j] == messages[j]);
        }
        assert forall|key: Seq<char>| #[trigger]
            last_written(rest, key) is Some implies c.index.dom().contains(key) by {
            assert(last_written(messages, key) is Some);
        }
        lemma_second_writing(c, rest);
        let before = after_all(c, rest);
        assert(completes(messages[messages.len() - 1]));
        if let Some(key) = concerned(last) {
            assert(last_written(messages, key) is Some);
        }
        assert forall|key: Seq<char>| #[trigger] last_written(messages, key) is Some implies after_all(
            c,
            messages,
        ).entries[c.index[key] as int] == last_written(messages, key)->Some_0 by {
            if concerned(last) != Some(key) {
                assert(last_written(rest, key) is Some);
            }
        }
        assert forall|i: int|
            #![trigger after_all(c, messages).entries[i]]
            0 <= i < c.entries.len() && (forall|j: int|
                0 <= j < messages.len() ==> !touches(
                    c,
                    #[trigger] messages[j],
                    i,
                )) implies after_all(c, messages).entries[i] == c.entries[i] by {
            assert(!touches(c, messages[messages.len() - 1], i));
            assert forall|j: int| 0 <= j < rest.len() implies !touches(
                c,
                #[trigger] rest[j],
                i,
            ) by {
                assert(rest[j] == messages[j]);
            }
            assert(before.entries[i] == c.entries[i]);
        }
    }
}

/// Whether two items ask for the same: their other fields may differ.
pub open spec fn same_request(a: JsonView, b: JsonView) -> bool {
    &&& text_or_empty(field(a, "id"@)) == text_or_empty(field(b, "id"@))
    &&& text_or_empty(field(a, "type"@)) == text_or_empty(field(b, "type"@))
    &&& field(a, "command"@) == field(b, "command"@)
    &&& field(a, "cwd"@) == field(b, "cwd"@)
    &&& field(a, "changes"@) == field(b, "changes"@)
}

/// Whether a message starts or completes an item.
pub open spec fn brings_item(message: JsonView) -> bool {
    let method = text_or_empty(field(message, "method"@));
    method == "item/started"@ || method == "item/completed"@
}

/// Whether two messages differ in nothing that an approval rests on: they have the same method and are
/// about the same item, and where they bring that item it asks for the same. The text that they
/// stream, and the other fields of the item, may differ.
pub open spec fn same_message(a: JsonView, b: JsonView) -> bool {
    &&& text_or_empty(field(a, "method"@)) == text_or_empty(field(b, "method"@))
    &&& concerned(a) == concerned(b)
    &&& brings_item(a) ==> same_request(
        field(field(a, "params"@), "item"@),
        field(field(b, "params"@), "item"@),
    )
}

/// Whether two sequences of messages differ in nothing that an approval rests on.
pub open spec fn same_messages(a: Seq<JsonView>, b: Seq<JsonView>) -> bool {
    &&& a.len() == b.len()
    &&& forall|i: int| 0 <= i < a.len() ==> same_message(#[trigger] a[i], b[i])
}

/// What a conversation takes in: a message from the server, or a saved thread.
pub enum Intake {
    Message(JsonView),
    Thread(JsonView),
}

/// The messages that do what an intake does.
pub open spec fn intake_messages(intake: Intake) -> Seq<JsonView> {
    match intake {
        Intake::Message(message) => seq![message],
        Intake::Thread(thread) => match items_of(field(thread, "turns"@)) {
            Some(turns) => completions(turns),
            None => Seq::empty(),
        },
    }
}

impl ConversationView {
    /// After one intake.
    pub open spec fn taking(self, intake: Intake) -> ConversationView {
        match intake {
            Intake::Message(message) => self.after(message),
            Intake::Thread(thread) => self.restored(thread),
        }
    }

    /// After a sequence of intakes.
    pub open spec fn taking_all(self, intakes: Seq<Intake>) -> ConversationView
        decreases intakes.len(),
    {
        if intakes.len() == 0 {
            self
        } else {
            self.taking_all(intakes.drop_last()).taking(intakes.last())
        }
    }
}

/// What the user decides on never rests on streamed text or on the results of tools: conversations that
/// take in the same messages and threads have the same details for every item, even if the texts of
/// deltas differ and so do the fields of items other than their id, type, command, directory and
/// changes.
pub proof fn details_rest_on_requests_alone(
    c: ConversationView,
    a: Seq<Intake>,
    b: Seq<Intake>,
    turn_id: Seq<char>,
    item_id: Seq<char>,
)
    requires
        c.wf(),
        a.len() == b.len(),
        forall|i: int|
            0 <= i < a.len() ==> same_messages(
                intake_messages(#[trigger] a[i]),
                intake_messages(b[i]),
            ),
    ensures
        c.taking_all(a).details_of(turn_id, item_id) == c.taking_all(b).details_of(
            turn_id,
            item_id,
        ),
{
    lemma_same_intakes(c, a, b);
}

/// Whether two conversations know the same items, with the same details.
spec fn same_details(a: ConversationView, b: ConversationView) -> bool {
    &&& a.index == b.index
    &&& a.entries.len() == b.entries.len()
    &&& forall|i: int|
        0 <= i < a.entries.len() ==> (#[trigger] a.entries[i]).approval == b.entries[i].approval
}

proof fn lemma_same_intakes(c: ConversationView, a: Seq<Intake>, b: Seq<Intake>)
    requires
        c.wf(),
        a.len() == b.len(),
        forall|i: int|
            0 <= i < a.len() ==> same_messages(
                intake_messages(#[trigger] a[i]),
                intake_messages(b[i]),
            ),
    ensures
        c.taking_all(a).wf(),
        c.taking_all(b).wf(),
        same_details(c.taking_all(a), c.taking_all(b)),
    decreases a.len(),
{
    if a.len() > 0 {
        let p = a.drop_last();
        let q = b.drop_last();
        assert forall|i: int| 0 <= i < p.len() implies same_messages(
            intake_messages(#[trigger] p[i]),
            intake_messages(q[i]),
        ) by {
            assert(p[i] == a[i] && q[i] == b[i]);
        }
        lemma_same_intakes(c, p, q);
        assert(same_messages(intake_messages(a[a.len() - 1]), intake_messages(b[b.len() - 1])));
        lemma_intake(c.taking_all(p), a.last());
        lemma_intake(c.taking_all(q), b.last());
        lemma_same_messages(
            c.taking_all(p),
            c.taking_all(q),
            intake_messages(a.last()),
            intake_messages(b.last()),
        );
    }
}

/// An intake does what its messages do.
proof fn lemma_intake(c: ConversationView, intake: Intake)
    ensures
        c.taking(intake) == after_all(c, intake_messages(intake)),
{
    match intake {
        Intake::Message(message) => {
            let messages = seq![message];
            assert(messages.drop_last() =~= Seq::empty());
            assert(after_all(c, messages.drop_last()) == c);
            assert(messages.last() == message);
        },
        Intake::Thread(thread) => {
            resuming_displays_as_live(c, thread);
        },
    }
}

proof fn lemma_same_messages(
    c: ConversationView,
    d: ConversationView,
    a: Seq<JsonView>,
    b: Seq<JsonView>,
)
    requires
        c.wf(),
        d.wf(),
        same_details(c, d),
        same_messages(a, b),
    ensures
        after_all(c, a).wf(),
        after_all(d, b).wf(),
        same_details(after_all(c, a), after_all(d, b)),
    decreases a.len(),
{
    if a.len() > 0 {
        let p = a.drop_last();
        let q = b.drop_last();
        assert forall|i: int| 0 <= i < p.len() implies same_message(#[trigger] p[i], q[i]) by {
            assert(p[i] == a[i] && q[i] == b[i]);
        }
        lemma_same_messages(c, d, p, q);
        assert(same_message(a[a.len() - 1], b[b.len() - 1]));
        lemma_same_step(after_all(c, p), after_all(d, q), a.last(), b.last());
    }
}

proof fn lemma_same_step(c: ConversationView, d: ConversationView, a: JsonView, b: JsonView)
    requires
        c.wf(),
        d.wf(),
        same_details(c, d),
        same_message(a, b),
    ensures
        c.after(a).wf(),
        d.after(b).wf(),
        same_details(c.after(a), d.after(b)),
{
    lemma_after(c, a);
    lemma_after(d, b);
    if brings_item(a) {
        approval_rests_on_the_request_alone(
            field(field(a, "params"@), "item"@),
            field(field(b, "params"@), "item"@),
        );
    }
}

/// A message that changes the entries changes the revision.
pub proof fn every_change_shows_in_the_revision(c: ConversationView, message: JsonView)
    ensures
        c.after(message) == c || c.after(message).revision == next_revision(c.revision),
        next_revision(c.revision) != c.revision,
{
}

// ---------------------------------------------------------------------------
// What is displayed, and as what
// ---------------------------------------------------------------------------

/// The names of methods and of item types tell them apart.
proof fn lemma_names_differ()
    ensures
        "userMessage"@ != "agentMessage"@,
        "userMessage"@ != "plan"@,
        "userMessage"@ != "exitedReviewMode"@,
        "userMessage"@ != "commandExecution"@,
        "userMessage"@ != "fileChange"@,
        "agentMessage"@ != "plan"@,
        "agentMessage"@ != "exitedReviewMode"@,
        "agentMessage"@ != "commandExecution"@,
        "agentMessage"@ != "fileChange"@,
        "plan"@ != "exitedReviewMode"@,
        "plan"@ != "commandExecution"@,
        "plan"@ != "fileChange"@,
        "exitedReviewMode"@ != "commandExecution"@,
        "exitedReviewMode"@ != "fileChange"@,
        "commandExecution"@ != "fileChange"@,
{
    reveal_strlit("userMessage");
    reveal_strlit("agentMessage");
    reveal_strlit("plan");
    reveal_strlit("exitedReviewMode");
    reveal_strlit("commandExecution");
    reveal_strlit("fileChange");
    assert("userMessage"@.len() == 11 && "agentMessage"@.len() == 12 && "plan"@.len() == 4
        && "exitedReviewMode"@.len() == 16 && "commandExecution"@.len() == 16
        && "fileChange"@.len() == 10);
    assert("exitedReviewMode"@[0] != "commandExecution"@[0]);
}

proof fn lemma_methods_differ()
    ensures
        "item/started"@.len() == 12,
        "item/completed"@.len() == 14,
        "item/agentMessage/delta"@.len() == 23,
        "item/plan/delta"@.len() == 15,
        "item/commandExecution/outputDelta"@.len() == 33,
        "item/reasoning/summaryTextDelta"@.len() == 31,
        "item/reasoning/textDelta"@.len() == 24,
        "error"@.len() == 5,
        "warning"@.len() == 7,
        "configWarning"@.len() == 13,
{
    reveal_strlit("item/started");
    reveal_strlit("item/completed");
    reveal_strlit("item/agentMessage/delta");
    reveal_strlit("item/plan/delta");
    reveal_strlit("item/commandExecution/outputDelta");
    reveal_strlit("item/reasoning/summaryTextDelta");
    reveal_strlit("item/reasoning/textDelta");
    reveal_strlit("error");
    reveal_strlit("warning");
    reveal_strlit("configWarning");
}

/// The text of a value is what a text value holds, and of any other value there is none.
pub proof fn only_texts_have_a_text(v: JsonView, text: Seq<char>)
    ensures
        text_or_empty(JsonView::Text(text)) == text,
        !(v is Text) ==> text_or_empty(v).len() == 0,
{
}

/// An item that is started or completed has one entry, under its turn and its ID: the one that it had,
/// in its place, or a new one behind all others. No other entry changes, and without an ID none does.
pub proof fn an_item_has_one_entry(c: ConversationView, message: JsonView)
    requires
        c.wf(),
        field(message, "method"@) == JsonView::Text("item/started"@) || field(message, "method"@)
            == JsonView::Text("item/completed"@),
    ensures
        ({
            let params = field(message, "params"@);
            let id = text_or_empty(field(field(params, "item"@), "id"@));
            let key = text_or_empty(field(params, "turnId"@)) + "/"@ + id;
            let d = c.after(message);
            if id.len() == 0 {
                d == c
            } else {
                &&& d.index.dom() == c.index.dom().insert(key)
                &&& forall|k: Seq<char>| #[trigger]
                    c.index.dom().contains(k) ==> d.index[k] == c.index[k]
                &&& if c.index.dom().contains(key) {
                    d.entries.len() == c.entries.len()
                } else {
                    d.entries.len() == c.entries.len() + 1 && d.index[key] == c.entries.len()
                }
                &&& forall|i: int|
                    0 <= i < c.entries.len() && i != d.index[key] ==> #[trigger] d.entries[i]
                        == c.entries[i]
                &&& d.revision == if c.revision == u64::MAX {
                    0
                } else {
                    c.revision + 1
                }
            }
        }),
{
    let params = field(message, "params"@);
    let id = text_or_empty(field(field(params, "item"@), "id"@));
    let key = text_or_empty(field(params, "turnId"@)) + "/"@ + id;
    assert(c.after(message).index.dom() =~= if id.len() == 0 {
        c.index.dom()
    } else {
        c.index.dom().insert(key)
    });
}

/// The entry that an item has once it is started or completed. It is activity unless it is a question, a
/// plan, a review or an answer: a message of the agent that is no commentary. It bears the text of the
/// item, under a label that says what it is, and what the user decides on only if it is a command or a
/// change of files.
pub proof fn an_entry_tells_what_its_item_is(c: ConversationView, message: JsonView)
    requires
        c.wf(),
        field(message, "method"@) == JsonView::Text("item/started"@) || field(message, "method"@)
            == JsonView::Text("item/completed"@),
        text_or_empty(field(field(field(message, "params"@), "item"@), "id"@)).len() > 0,
    ensures
        ({
            let params = field(message, "params"@);
            let item = field(params, "item"@);
            let key = text_or_empty(field(params, "turnId"@)) + "/"@ + text_or_empty(
                field(item, "id"@),
            );
            let entry = c.after(message).entries[c.after(message).index[key] as int];
            let named = field(item, "type"@);
            &&& entry.kind == Kind::User <==> named == JsonView::Text("userMessage"@)
            &&& entry.kind == Kind::Answer <==> named == JsonView::Text("plan"@) || named
                == JsonView::Text("exitedReviewMode"@) || (named == JsonView::Text("agentMessage"@)
                && field(item, "phase"@) != JsonView::Text("commentary"@))
            &&& entry.kind != Kind::Notice
            &&& named == JsonView::Text("userMessage"@) ==> entry.label == "You"@ && entry.text
                == user_message(field(item, "content"@))
            &&& named == JsonView::Text("agentMessage"@) ==> entry.label == "Codex"@ && entry.text
                == text_or_empty(field(item, "text"@))
            &&& named == JsonView::Text("plan"@) ==> entry.label == "Plan"@ && entry.text
                == text_or_empty(field(item, "text"@))
            &&& named == JsonView::Text("exitedReviewMode"@) ==> entry.label == "Review"@
                && entry.text == text_or_empty(field(item, "review"@))
            &&& named == JsonView::Text("commandExecution"@) ==> entry.label == "Command · "@
                + text_or_empty(field(item, "status"@)) && entry.text == "$ "@ + text_or_empty(
                field(item, "command"@),
            ) + "\n"@ + text_or_empty(field(item, "cwd"@)) + "\n"@ + text_or_empty(
                field(item, "aggregatedOutput"@),
            )
            &&& !(named == JsonView::Text("userMessage"@) || named == JsonView::Text(
                "agentMessage"@,
            ) || named == JsonView::Text("plan"@) || named == JsonView::Text("exitedReviewMode"@)
                || named == JsonView::Text("commandExecution"@)) ==> entry.kind == Kind::Activity
                && entry.label == text_or_empty(named) && entry.text == pretty_text(item)
            &&& entry.approval is Some <==> named == JsonView::Text("commandExecution"@) || named
                == JsonView::Text("fileChange"@)
        }),
{
    lemma_names_differ();
    reveal_strlit("userMessage");
    reveal_strlit("agentMessage");
    reveal_strlit("plan");
    reveal_strlit("exitedReviewMode");
    reveal_strlit("commandExecution");
    reveal_strlit("fileChange");
    let params = field(message, "params"@);
    let item = field(params, "item"@);
    let named = field(item, "type"@);
    assert(!(named is Text) ==> text_or_empty(named).len() == 0);
    assert("userMessage"@.len() == 11 && "agentMessage"@.len() == 12 && "plan"@.len() == 4
        && "exitedReviewMode"@.len() == 16 && "commandExecution"@.len() == 16
        && "fileChange"@.len() == 10);
}

/// What the user decides on, for a command: its command and its directory, and nothing else. For a
/// change of files: the changes, and nothing else. It is found under the turn and the ID of the item.
pub proof fn details_are_those_of_the_request(
    c: ConversationView,
    message: JsonView,
    turn_id: Seq<char>,
    id: Seq<char>,
)
    requires
        c.wf(),
        field(message, "method"@) == JsonView::Text("item/started"@) || field(message, "method"@)
            == JsonView::Text("item/completed"@),
        field(field(message, "params"@), "turnId"@) == JsonView::Text(turn_id),
        field(field(field(message, "params"@), "item"@), "id"@) == JsonView::Text(id),
        id.len() > 0,
    ensures
        ({
            let item = field(field(message, "params"@), "item"@);
            let named = field(item, "type"@);
            let found = c.after(message).details_of(turn_id, id);
            &&& named == JsonView::Text("commandExecution"@) ==> exists|shown: JsonView|
                {
                    &&& found == Some(#[trigger] pretty_text(shown))
                    &&& field(shown, "command"@) == field(item, "command"@)
                    &&& field(shown, "cwd"@) == field(item, "cwd"@)
                    &&& shown is Object && shown->Object_0.dom() =~= set!["command"@, "cwd"@]
                }
            &&& named == JsonView::Text("fileChange"@) ==> exists|shown: JsonView|
                {
                    &&& found == Some(#[trigger] pretty_text(shown))
                    &&& field(shown, "changes"@) == field(item, "changes"@)
                    &&& shown is Object && shown->Object_0.dom() =~= set!["changes"@]
                }
            &&& named != JsonView::Text("commandExecution"@) && named != JsonView::Text(
                "fileChange"@,
            ) ==> found is None
        }),
{
    an_entry_tells_what_its_item_is(c, message);
    an_item_has_one_entry(c, message);
    lemma_names_differ();
    reveal_strlit("command");
    reveal_strlit("cwd");
    assert("command"@.len() == 7 && "cwd"@.len() == 3);
    let item = field(field(message, "params"@), "item"@);
    let command = JsonView::Object(
        no_members().insert("command"@, field(item, "command"@)).insert(
            "cwd"@,
            field(item, "cwd"@),
        ),
    );
    let changes = JsonView::Object(no_members().insert("changes"@, field(item, "changes"@)));
    assert(field(command, "command"@) == field(item, "command"@));
    assert(field(command, "cwd"@) == field(item, "cwd"@));
    assert(command->Object_0.dom() =~= set!["command"@, "cwd"@]);
    assert(field(changes, "changes"@) == field(item, "changes"@));
    assert(changes->Object_0.dom() =~= set!["changes"@]);
}

/// What is found for an item is what the entry under its turn and its ID has, and nothing where there is
/// no such entry.
pub proof fn details_are_found_by_turn_and_item(
    c: ConversationView,
    turn_id: Seq<char>,
    id: Seq<char>,
)
    ensures
        !c.index.dom().contains(turn_id + "/"@ + id) ==> c.details_of(turn_id, id) is None,
        c.index.dom().contains(turn_id + "/"@ + id) ==> c.details_of(turn_id, id)
            == c.entries[c.index[turn_id + "/"@ + id] as int].approval,
{
}

/// One more entry is shown behind the others, unless it is activity and activity is hidden: then it is
/// counted. So what is shown keeps the order of the entries, and nothing is counted that is shown.
pub proof fn activity_is_counted_and_all_else_is_shown(
    c: ConversationView,
    d: ConversationView,
    entry: EntryView,
)
    requires
        d.entries == c.entries.push(entry),
    ensures
        d.shown(true) == c.shown(true).push(entry),
        d.shown(false) == if entry.kind == Kind::Activity {
            c.shown(false)
        } else {
            c.shown(false).push(entry)
        },
        d.hidden() == c.hidden() + if entry.kind == Kind::Activity {
            1nat
        } else {
            0nat
        },
        c.entries.len() == 0 ==> c.shown(true).len() == 0 && c.shown(false).len() == 0 && c.hidden()
            == 0,
{
    reveal(Seq::filter);
    assert(d.entries.drop_last() =~= c.entries);
}

/// Where the display hides activity, an item that is new to it shows only if it is a question or an
/// answer: of any other item what is shown stays as it was, and one more is counted as hidden.
pub proof fn other_items_are_hidden(c: ConversationView, message: JsonView)
    requires
        c.wf(),
        field(message, "method"@) == JsonView::Text("item/started"@) || field(message, "method"@)
            == JsonView::Text("item/completed"@),
        text_or_empty(field(field(field(message, "params"@), "item"@), "id"@)).len() > 0,
        !c.index.dom().contains(
            text_or_empty(field(field(message, "params"@), "turnId"@)) + "/"@ + text_or_empty(
                field(field(field(message, "params"@), "item"@), "id"@),
            ),
        ),
    ensures
        ({
            let item = field(field(message, "params"@), "item"@);
            let named = field(item, "type"@);
            let d = c.after(message);
            let answers = named == JsonView::Text("userMessage"@) || named == JsonView::Text(
                "plan"@,
            ) || named == JsonView::Text("exitedReviewMode"@) || (named == JsonView::Text(
                "agentMessage"@,
            ) && field(item, "phase"@) != JsonView::Text("commentary"@));
            &&& d.shown(true).len() == c.shown(true).len() + 1
            &&& d.shown(true).drop_last() == c.shown(true)
            &&& answers ==> d.shown(false) == c.shown(false).push(d.shown(true).last())
                && d.hidden() == c.hidden()
            &&& !answers ==> d.shown(false) == c.shown(false) && d.hidden() == c.hidden() + 1
        }),
{
    an_entry_tells_what_its_item_is(c, message);
    an_item_has_one_entry(c, message);
    let d = c.after(message);
    let entry = d.entries.last();
    assert(d.entries =~= c.entries.push(entry));
    activity_is_counted_and_all_else_is_shown(c, d, entry);
    assert(c.shown(true).push(entry).drop_last() =~= c.shown(true));
}

/// Text that is streamed goes to the entry of its item: the text of a message or of a plan is an answer,
/// the output of a command and what the model thinks are activity. An entry that is there keeps all but
/// its text, and no other entry changes.
pub proof fn streamed_text_goes_to_its_item(c: ConversationView, message: JsonView)
    requires
        c.wf(),
        field(message, "method"@) == JsonView::Text("item/agentMessage/delta"@) || field(
            message,
            "method"@,
        ) == JsonView::Text("item/plan/delta"@) || field(message, "method"@) == JsonView::Text(
            "item/commandExecution/outputDelta"@,
        ) || field(message, "method"@) == JsonView::Text("item/reasoning/summaryTextDelta"@)
            || field(message, "method"@) == JsonView::Text("item/reasoning/textDelta"@),
    ensures
        ({
            let params = field(message, "params"@);
            let method = field(message, "method"@);
            let key = text_or_empty(field(params, "turnId"@)) + "/"@ + text_or_empty(
                field(params, "itemId"@),
            );
            let more = text_or_empty(field(params, "delta"@));
            let d = c.after(message);
            if c.index.dom().contains(key) {
                let place = c.index[key] as int;
                &&& d.index == c.index
                &&& d.entries.len() == c.entries.len()
                &&& d.entries[place].text == c.entries[place].text + more
                &&& d.entries[place].kind == c.entries[place].kind
                &&& d.entries[place].label == c.entries[place].label
                &&& d.entries[place].approval == c.entries[place].approval
                &&& forall|i: int|
                    0 <= i < c.entries.len() && i != place ==> #[trigger] d.entries[i]
                        == c.entries[i]
            } else {
                let entry = d.entries.last();
                let answers = method == JsonView::Text("item/agentMessage/delta"@) || method
                    == JsonView::Text("item/plan/delta"@);
                &&& d.entries.drop_last() == c.entries
                &&& d.index == c.index.insert(key, c.entries.len())
                &&& entry.text == more
                &&& entry.approval is None
                &&& entry.kind == if answers {
                    Kind::Answer
                } else {
                    Kind::Activity
                }
                &&& entry.label == if answers {
                    "Codex"@
                } else if method == JsonView::Text("item/commandExecution/outputDelta"@) {
                    "Command"@
                } else {
                    "Reasoning"@
                }
            }
        }),
{
    lemma_methods_differ();
    let params = field(message, "params"@);
    let more = text_or_empty(field(params, "delta"@));
    assert(Seq::<char>::empty() + more =~= more);
    assert(c.after(message).entries.drop_last() =~= c.entries || c.index.dom().contains(
        text_or_empty(field(params, "turnId"@)) + "/"@ + text_or_empty(field(params, "itemId"@)),
    ));
}

/// Errors and warnings are notices, which are never hidden, with the text of the message; the entries
/// before them stay.
pub proof fn errors_and_warnings_are_notices(c: ConversationView, message: JsonView)
    requires
        field(message, "method"@) == JsonView::Text("error"@) || field(message, "method"@)
            == JsonView::Text("warning"@) || field(message, "method"@) == JsonView::Text(
            "configWarning"@,
        ),
    ensures
        ({
            let params = field(message, "params"@);
            let d = c.after(message);
            let entry = d.entries.last();
            &&& d.entries.drop_last() == c.entries
            &&& d.index == c.index
            &&& d.shown(false).last() == entry
            &&& entry.kind == Kind::Notice && entry.label == "Notice"@ && entry.approval is None
            &&& field(message, "method"@) == JsonView::Text("error"@) ==> match field(
                field(params, "error"@),
                "message"@,
            ) {
                JsonView::Text(text) => entry.text == text,
                _ => entry.text == compact_text(field(params, "error"@)),
            }
            &&& field(message, "method"@) == JsonView::Text("warning"@) ==> entry.text
                == text_or_empty(field(params, "message"@))
            &&& field(message, "method"@) == JsonView::Text("configWarning"@) ==> entry.text
                == text_or_empty(field(params, "summary"@)) + "\n"@ + text_or_empty(
                field(params, "details"@),
            )
        }),
{
    lemma_methods_differ();
    reveal(Seq::filter);
    assert(c.after(message).entries.drop_last() =~= c.entries);
}

/// A notice is shown behind all others, with its text, whether activity is hidden or not.
pub proof fn a_notice_is_always_shown(c: ConversationView, text: Seq<char>, expanded: bool)
    ensures
        c.noticed(text).entries.drop_last() == c.entries,
        c.noticed(text).index == c.index,
        c.noticed(text).shown(expanded) == c.shown(expanded).push(c.noticed(text).entries.last()),
        c.noticed(text).entries.last().text == text,
        c.noticed(text).entries.last().kind == Kind::Notice,
        c.noticed(text).entries.last().label == "Notice"@,
        c.noticed(text).entries.last().approval is None,
        c.noticed(text).revision != c.revision,
{
    reveal(Seq::filter);
    assert(c.noticed(text).entries.drop_last() =~= c.entries);
}

/// No other message changes the conversation.
pub proof fn other_messages_change_nothing(c: ConversationView, message: JsonView)
    requires
        ({
            let method = field(message, "method"@);
            &&& method != JsonView::Text("item/started"@)
            &&& method != JsonView::Text("item/completed"@)
            &&& method != JsonView::Text("item/agentMessage/delta"@)
            &&& method != JsonView::Text("item/plan/delta"@)
            &&& method != JsonView::Text("item/commandExecution/outputDelta"@)
            &&& method != JsonView::Text("item/reasoning/summaryTextDelta"@)
            &&& method != JsonView::Text("item/reasoning/textDelta"@)
            &&& method != JsonView::Text("error"@)
            &&& method != JsonView::Text("warning"@)
            &&& method != JsonView::Text("configWarning"@)
        }),
    ensures
        c.after(message) == c,
{
    lemma_methods_differ();
}

/// The parts of a question stand one below the other, in their order: a text as it is, an image by its
/// path where it has one, anything else as JSON.
pub proof fn a_question_shows_its_parts(items: Seq<JsonView>, part: JsonView)
    ensures
        user_message(JsonView::Array(Seq::empty())).len() == 0,
        ({
            let shown = if field(part, "type"@) == JsonView::Text("text"@) {
                text_or_empty(field(part, "text"@))
            } else if field(part, "type"@) == JsonView::Text("image"@) {
                "[Image]"@
            } else if field(part, "type"@) == JsonView::Text("localImage"@) {
                "[Image: "@ + text_or_empty(field(part, "path"@)) + "]"@
            } else {
                compact_text(part)
            };
            user_message(JsonView::Array(items.push(part))) == if items.len() == 0 {
                shown
            } else {
                user_message(JsonView::Array(items)) + "\n"@ + shown
            }
        }),
{
    reveal_strlit("text");
    reveal_strlit("image");
    reveal_strlit("localImage");
    assert("text"@.len() == 4 && "image"@.len() == 5 && "localImage"@.len() == 10);
    let parts = items.push(part).map_values(|item: JsonView| user_part(item));
    let before = items.map_values(|item: JsonView| user_part(item));
    assert(parts.drop_last() =~= before);
    assert(parts.last() == user_part(part));
    assert(Seq::<JsonView>::empty().map_values(|item: JsonView| user_part(item)) =~= Seq::empty());
}

/// A thread without turns restores nothing.
pub proof fn a_thread_without_turns_restores_nothing(c: ConversationView, thread: JsonView)
    requires
        !(field(thread, "turns"@) is Array) || field(thread, "turns"@)->Array_0.len() == 0,
    ensures
        c.restored(thread) == c,
{
}

/// The turns of a thread are restored in their order, and a turn without items adds nothing.
pub proof fn turns_are_restored_in_order(
    c: ConversationView,
    thread: JsonView,
    earlier: JsonView,
    turns: Seq<JsonView>,
    turn: JsonView,
)
    requires
        field(thread, "turns"@) == JsonView::Array(turns.push(turn)),
        field(earlier, "turns"@) == JsonView::Array(turns),
        !(field(turn, "items"@) is Array) || field(turn, "items"@)->Array_0.len() == 0,
    ensures
        c.restored(thread) == c.restored(earlier),
{
    assert(turns.push(turn).drop_last() =~= turns);
}

/// The items of a turn are restored in their order, each as the message restores it with which it was
/// completed. With the laws on threads without turns and on turns without items this says what every
/// thread restores: nothing of it is left out, and nothing is added.
pub proof fn items_are_restored_in_order(
    c: ConversationView,
    thread: JsonView,
    shorter: JsonView,
    turns: Seq<JsonView>,
    turn: JsonView,
    before: JsonView,
    items: Seq<JsonView>,
    item: JsonView,
    message: JsonView,
)
    requires
        field(thread, "turns"@) == JsonView::Array(turns.push(turn)),
        field(shorter, "turns"@) == JsonView::Array(turns.push(before)),
        field(turn, "items"@) == JsonView::Array(items.push(item)),
        field(before, "items"@) == JsonView::Array(items),
        field(turn, "id"@) == field(before, "id"@),
        field(message, "method"@) == JsonView::Text("item/completed"@),
        field(field(message, "params"@), "turnId"@) == field(turn, "id"@),
        field(field(message, "params"@), "item"@) == item,
    ensures
        c.restored(thread) == c.restored(shorter).after(message),
{
    assert(turns.push(turn).drop_last() =~= turns);
    assert(turns.push(before).drop_last() =~= turns);
    assert(items.push(item).drop_last() =~= items);
    lemma_methods_differ();
}

} // verus!
