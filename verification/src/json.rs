//! JSON values and their mathematical model.
use crate::text::{before, before_is_irreflexive, before_is_total, before_is_transitive};
use crate::text::{is_before, same};
use vstd::prelude::*;

verus! {

/// The number type of `serde_json`, carried through as it is.
#[verifier::external_type_specification]
#[verifier::external_body]
pub struct ExNumber(serde_json::Number);

/// What a JSON number is: an integer, or the text of a finite fraction.
pub enum NumberView {
    Pos(u64),
    Neg(i64),
    Float(Seq<char>),
}

/// What a JSON value is.
#[verifier::ext_equal]
pub enum JsonView {
    Null,
    Bool(bool),
    Num(NumberView),
    Text(Seq<char>),
    Array(Seq<JsonView>),
    Object(Map<Seq<char>, JsonView>),
}

/// What a number of `serde_json` holds.
pub uninterp spec fn number_view(n: serde_json::Number) -> NumberView;

/// `Number::as_u64` gives the integer when the number is one from 0 to `u64::MAX`.
#[verifier::external_body]
fn number_as_u64(n: &serde_json::Number) -> (r: Option<u64>)
    ensures
        r == (match number_view(*n) {
            NumberView::Pos(u) => Some(u),
            _ => None,
        }),
{
    n.as_u64()
}

/// `Number::from` on a `u64` makes the number of that value.
#[verifier::external_body]
fn number_from_u64(u: u64) -> (r: serde_json::Number)
    ensures
        number_view(r) == NumberView::Pos(u),
{
    serde_json::Number::from(u)
}

/// `Number::from` on an `i64` makes the number of that value, which is kept as
/// an unsigned one unless it is negative.
#[verifier::external_body]
fn number_from_i64(i: i64) -> (r: serde_json::Number)
    ensures
        number_view(r) == (if i < 0 {
            NumberView::Neg(i)
        } else {
            NumberView::Pos(i as u64)
        }),
{
    serde_json::Number::from(i)
}

/// A JSON value.
#[derive(Debug)]
pub enum Json {
    Null,
    Bool(bool),
    Num(serde_json::Number),
    Text(String),
    Array(Vec<Json>),
    Object(Object),
}

/// A JSON object: its members in the order of their keys, each key once.
#[derive(Debug)]
pub struct Object {
    entries: Vec<(String, Json)>,
}

impl Json {
    /// The value that this is.
    pub open spec fn view(&self) -> JsonView
        decreases self,
    {
        match self {
            Json::Null => JsonView::Null,
            Json::Bool(b) => JsonView::Bool(*b),
            Json::Num(n) => JsonView::Num(number_view(*n)),
            Json::Text(s) => JsonView::Text(s@),
            Json::Array(items) => JsonView::Array(
                Seq::new(
                    items@.len(),
                    |i: int|
                        if 0 <= i < items@.len() {
                            items@[i].view()
                        } else {
                            JsonView::Null
                        },
                ),
            ),
            Json::Object(object) => JsonView::Object(object.view()),
        }
    }
}

impl Object {
    /// The members, by key.
    pub closed spec fn view(&self) -> Map<Seq<char>, JsonView>
        decreases self,
    {
        members(self.entries@)
    }

    #[verifier::type_invariant]
    spec fn ordered(self) -> bool {
        in_order(self.entries@)
    }
}

spec fn members(entries: Seq<(String, Json)>) -> Map<Seq<char>, JsonView>
    decreases entries,
{
    if entries.len() == 0 {
        Map::empty()
    } else {
        members(entries.drop_last()).insert(entries.last().0@, entries.last().1.view())
    }
}

spec fn in_order(entries: Seq<(String, Json)>) -> bool {
    forall|i: int, j: int|
        0 <= i < j < entries.len() ==> before(#[trigger] entries[i].0@, #[trigger] entries[j].0@)
}

/// A key is a member's key exactly when an entry has it, and the entry holds the member.
proof fn lemma_members(entries: Seq<(String, Json)>)
    requires
        in_order(entries),
    ensures
        members(entries).dom().finite(),
        forall|i: int|
            0 <= i < entries.len() ==> members(entries).dom().contains(#[trigger] entries[i].0@)
                && members(entries)[entries[i].0@] == entries[i].1@,
        forall|k: Seq<char>| #[trigger]
            members(entries).dom().contains(k) ==> exists|i: int|
                0 <= i < entries.len() && #[trigger] entries[i].0@ == k,
    decreases entries.len(),
{
    if entries.len() > 0 {
        let rest = entries.drop_last();
        lemma_members(rest);
        assert forall|i: int| 0 <= i < entries.len() implies members(entries).dom().contains(
            #[trigger] entries[i].0@,
        ) && members(entries)[entries[i].0@] == entries[i].1@ by {
            if i < rest.len() {
                assert(rest[i] == entries[i]);
                before_is_irreflexive(entries[i].0@);
                assert(before(entries[i].0@, entries.last().0@));
            }
        }
        assert forall|k: Seq<char>| #[trigger] members(entries).dom().contains(k) implies exists|
            i: int,
        | 0 <= i < entries.len() && #[trigger] entries[i].0@ == k by {
            if k == entries.last().0@ {
                assert(entries[entries.len() - 1].0@ == k);
            } else {
                assert(members(rest).dom().contains(k));
                let i = choose|i: int| 0 <= i < rest.len() && #[trigger] rest[i].0@ == k;
                assert(entries[i].0@ == k);
            }
        }
    }
}

impl Object {
    /// An object without members.
    pub fn new() -> (r: Object)
        ensures
            r@ == Map::<Seq<char>, JsonView>::empty(),
    {
        Object { entries: Vec::new() }
    }

    /// The member with this key, if there is one.
    pub fn get(&self, key: &str) -> (r: Option<&Json>)
        ensures
            match r {
                Some(value) => self@.dom().contains(key@) && value@ == self@[key@],
                None => !self@.dom().contains(key@),
            },
    {
        proof {
            use_type_invariant(self);
            lemma_members(self.entries@);
        }
        for i in 0..self.entries.len()
            invariant
                in_order(self.entries@),
                forall|k: int| 0 <= k < i ==> #[trigger] self.entries@[k].0@ != key@,
        {
            if same(self.entries[i].0.as_str(), key) {
                proof {
                    lemma_members(self.entries@);
                }
                return Some(&self.entries[i].1);
            }
        }
        None
    }
}

/// The entries stay in order when one is put between smaller and greater keys.
proof fn lemma_insert(entries: Seq<(String, Json)>, at: int, entry: (String, Json))
    requires
        in_order(entries),
        0 <= at <= entries.len(),
        forall|i: int| 0 <= i < at ==> before(#[trigger] entries[i].0@, entry.0@),
        forall|i: int| at <= i < entries.len() ==> before(entry.0@, #[trigger] entries[i].0@),
    ensures
        in_order(entries.insert(at, entry)),
        members(entries.insert(at, entry)) == members(entries).insert(entry.0@, entry.1@),
{
    let next = entries.insert(at, entry);
    assert(in_order(next)) by {
        assert forall|i: int, j: int| 0 <= i < j < next.len() implies before(
            #[trigger] next[i].0@,
            #[trigger] next[j].0@,
        ) by {
            if i < at && j > at {
                assert(before(entries[i].0@, entries[j - 1].0@));
            } else if i > at {
                assert(before(entries[i - 1].0@, entries[j - 1].0@));
            } else if i == at {
                assert(before(entry.0@, entries[j - 1].0@));
            } else if j == at {
                assert(before(entries[i].0@, entry.0@));
            } else {
                assert(before(entries[i].0@, entries[j].0@));
            }
        }
    }
    lemma_members(entries);
    lemma_members(next);
    let wanted = members(entries).insert(entry.0@, entry.1@);
    assert(next[at] == entry);
    assert forall|k: Seq<char>| members(next).dom().contains(k) <==> wanted.dom().contains(k) by {
        if members(next).dom().contains(k) {
            let i = choose|i: int| 0 <= i < next.len() && #[trigger] next[i].0@ == k;
            if i < at {
                assert(entries[i].0@ == k);
            } else if i > at {
                assert(entries[i - 1].0@ == k);
            }
        }
        if wanted.dom().contains(k) && k != entry.0@ {
            let i = choose|i: int| 0 <= i < entries.len() && #[trigger] entries[i].0@ == k;
            if i < at {
                assert(next[i].0@ == k);
            } else {
                assert(next[i + 1].0@ == k);
            }
        }
    }
    assert forall|k: Seq<char>| members(next).dom().contains(k) implies members(next)[k]
        == wanted[k] by {
        let i = choose|i: int| 0 <= i < next.len() && #[trigger] next[i].0@ == k;
        if i < at {
            assert(entries[i].0@ == k);
            before_is_irreflexive(k);
        } else if i > at {
            assert(entries[i - 1].0@ == k);
            before_is_irreflexive(k);
        }
    }
    assert(members(next) =~= wanted);
}

/// The entries stay in order when the member of one is replaced.
proof fn lemma_replace(entries: Seq<(String, Json)>, at: int, entry: (String, Json))
    requires
        in_order(entries),
        0 <= at < entries.len(),
        entries[at].0@ == entry.0@,
    ensures
        in_order(entries.update(at, entry)),
        members(entries.update(at, entry)) == members(entries).insert(entry.0@, entry.1@),
{
    let next = entries.update(at, entry);
    assert forall|i: int| 0 <= i < next.len() implies #[trigger] next[i].0@ == entries[i].0@ by {}
    assert(in_order(next));
    lemma_members(entries);
    lemma_members(next);
    let wanted = members(entries).insert(entry.0@, entry.1@);
    assert forall|k: Seq<char>| members(next).dom().contains(k) <==> wanted.dom().contains(k) by {
        if members(next).dom().contains(k) {
            let i = choose|i: int| 0 <= i < next.len() && #[trigger] next[i].0@ == k;
            assert(entries[i].0@ == k);
        }
        if wanted.dom().contains(k) {
            if k == entry.0@ {
                assert(next[at].0@ == k);
            } else {
                let i = choose|i: int| 0 <= i < entries.len() && #[trigger] entries[i].0@ == k;
                assert(next[i].0@ == k);
            }
        }
    }
    assert forall|k: Seq<char>| members(next).dom().contains(k) implies members(next)[k]
        == wanted[k] by {
        let i = choose|i: int| 0 <= i < next.len() && #[trigger] next[i].0@ == k;
        assert(entries[i].0@ == k);
        if k == entry.0@ {
            assert(next[at].0@ == k);
            assert(members(next)[next[at].0@] == next[at].1@);
        } else {
            assert(next[i] == entries[i]);
        }
    }
    assert(members(next) =~= wanted);
}

impl Object {
    /// The keys, in their order.
    pub closed spec fn keys(&self) -> Seq<Seq<char>> {
        Seq::new(self.entries@.len(), |i: int| self.entries@[i].0@)
    }

    /// The number of members.
    pub fn len(&self) -> (r: usize)
        ensures
            r == self.keys().len(),
            self@.dom().finite(),
            forall|i: int, j: int|
                0 <= i < j < r ==> before(#[trigger] self.keys()[i], #[trigger] self.keys()[j]),
            forall|k: Seq<char>| #[trigger]
                self@.dom().contains(k) <==> exists|i: int|
                    0 <= i < r && #[trigger] self.keys()[i] == k,
    {
        proof {
            use_type_invariant(self);
            lemma_members(self.entries@);
            assert forall|k: Seq<char>| #[trigger] self@.dom().contains(k) implies exists|i: int|
                0 <= i < self.entries@.len() && #[trigger] self.keys()[i] == k by {
                let i = choose|i: int|
                    0 <= i < self.entries@.len() && #[trigger] self.entries@[i].0@ == k;
                assert(self.keys()[i] == k);
            }
            assert forall|i: int, j: int| 0 <= i < j < self.entries@.len() implies before(
                #[trigger] self.keys()[i],
                #[trigger] self.keys()[j],
            ) by {
                assert(before(self.entries@[i].0@, self.entries@[j].0@));
            }
        }
        self.entries.len()
    }

    /// The key at a position in the order of keys, with its member.
    pub fn entry(&self, i: usize) -> (r: (&String, &Json))
        requires
            i < self.keys().len(),
        ensures
            r.0@ == self.keys()[i as int],
            self@.dom().contains(r.0@),
            r.1@ == self@[r.0@],
    {
        proof {
            use_type_invariant(self);
            lemma_members(self.entries@);
        }
        (&self.entries[i].0, &self.entries[i].1)
    }

    /// Whether a member has this key.
    pub fn contains_key(&self, key: &str) -> (r: bool)
        ensures
            r == self@.dom().contains(key@),
    {
        self.get(key).is_some()
    }

    /// Sets the member with this key.
    pub fn insert(&mut self, key: String, value: Json)
        ensures
            final(self)@ == old(self)@.insert(key@, value@),
    {
        proof {
            use_type_invariant(&*self);
        }
        let ghost start = self.entries@;
        let mut entries: Vec<(String, Json)> = Vec::new();
        std::mem::swap(&mut entries, &mut self.entries);
        let mut i: usize = entries.len();
        while i > 0 && !is_before(entries[i - 1].0.as_str(), key.as_str())
            invariant
                i <= entries@.len(),
                in_order(entries@),
                entries@ == start,
                forall|j: int|
                    i <= j < entries@.len() ==> !before(#[trigger] entries@[j].0@, key@),
            decreases i,
        {
            i = i - 1;
        }
        proof {
            assert forall|j: int| 0 <= j < i implies before(#[trigger] entries@[j].0@, key@) by {
                if j < i - 1 {
                    before_is_transitive(entries@[j].0@, entries@[i - 1].0@, key@);
                }
            }
        }
        if i < entries.len() && same(entries[i].0.as_str(), key.as_str()) {
            proof {
                lemma_replace(start, i as int, (key, value));
            }
            entries[i] = (key, value);
        } else {
            proof {
                assert forall|j: int| i <= j < entries@.len() implies before(
                    key@,
                    #[trigger] entries@[j].0@,
                ) by {
                    if entries@[j].0@ == key@ {
                        assert(j > i);
                        assert(before(entries@[i as int].0@, entries@[j].0@));
                    } else {
                        before_is_total(entries@[j].0@, key@);
                    }
                }
                lemma_insert(start, i as int, (key, value));
            }
            entries.insert(i, (key, value));
        }
        self.entries = entries;
    }

    /// The first key of this object that `other` has no member for, in the order of keys.
    pub fn first_missing_in(&self, other: &Object) -> (r: Option<&String>)
        ensures
            match r {
                Some(key) => first_missing(self@, other@, key@),
                None => self@.dom().subset_of(other@.dom()),
            },
    {
        proof {
            use_type_invariant(self);
            lemma_members(self.entries@);
        }
        for i in 0..self.entries.len()
            invariant
                in_order(self.entries@),
                forall|k: int|
                    0 <= k < i ==> other@.dom().contains(#[trigger] self.entries@[k].0@),
        {
            if !other.contains_key(self.entries[i].0.as_str()) {
                proof {
                    lemma_members(self.entries@);
                    let key = self.entries@[i as int].0@;
                    assert forall|k: Seq<char>|
                        self@.dom().contains(k) && !other@.dom().contains(k) && k
                            != key implies #[trigger] before(key, k) by {
                        let j = choose|j: int|
                            0 <= j < self.entries@.len() && #[trigger] self.entries@[j].0@ == k;
                        assert(j > i);
                        assert(before(self.entries@[i as int].0@, self.entries@[j].0@));
                    }
                }
                return Some(&self.entries[i].0);
            }
        }
        None
    }
}

/// `key` is the first key of `mine` that `other` lacks.
pub open spec fn first_missing(
    mine: Map<Seq<char>, JsonView>,
    other: Map<Seq<char>, JsonView>,
    key: Seq<char>,
) -> bool {
    &&& mine.dom().contains(key)
    &&& !other.dom().contains(key)
    &&& forall|k: Seq<char>|
        mine.dom().contains(k) && !other.dom().contains(k) && k != key ==> #[trigger] before(key, k)
}

/// At most one key is the first that is missing.
pub proof fn first_missing_is_unique(
    mine: Map<Seq<char>, JsonView>,
    other: Map<Seq<char>, JsonView>,
    a: Seq<char>,
    b: Seq<char>,
)
    requires
        first_missing(mine, other, a),
        first_missing(mine, other, b),
    ensures
        a == b,
{
    if a != b {
        assert(before(a, b));
        assert(before(b, a));
        before_is_transitive(a, b, a);
        before_is_irreflexive(a);
    }
}

// ---------------------------------------------------------------------------
// Copies and equality
// ---------------------------------------------------------------------------

/// `Number::clone` gives the same number.
pub assume_specification[ <serde_json::Number as Clone>::clone ](
    n: &serde_json::Number,
) -> (r: serde_json::Number)
    ensures
        number_view(r) == number_view(*n),
;

/// Whether a number is one of the two zeros among the fractions.
pub open spec fn zero_float(n: NumberView) -> bool {
    n == NumberView::Float("0.0"@) || n == NumberView::Float("-0.0"@)
}

/// Equality of numbers: the two zeros among the fractions count as one.
pub open spec fn number_eq(a: NumberView, b: NumberView) -> bool {
    a == b || (zero_float(a) && zero_float(b))
}

/// `==` on numbers of `serde_json` compares integers by value, fractions as
/// floating point numbers do, and never an integer with a fraction.
#[verifier::external_body]
fn same_number(a: &serde_json::Number, b: &serde_json::Number) -> (r: bool)
    ensures
        r == number_eq(number_view(*a), number_view(*b)),
{
    a == b
}

/// Equality of JSON values.
pub open spec fn json_eq(a: JsonView, b: JsonView) -> bool
    decreases a,
{
    match (a, b) {
        (JsonView::Null, JsonView::Null) => true,
        (JsonView::Bool(x), JsonView::Bool(y)) => x == y,
        (JsonView::Num(x), JsonView::Num(y)) => number_eq(x, y),
        (JsonView::Text(x), JsonView::Text(y)) => x == y,
        (JsonView::Array(x), JsonView::Array(y)) => {
            &&& x.len() == y.len()
            &&& forall|i: int| 0 <= i < x.len() ==> json_eq(#[trigger] x[i], y[i])
        },
        (JsonView::Object(x), JsonView::Object(y)) => {
            &&& x.dom() == y.dom()
            &&& forall|k: Seq<char>| #[trigger] x.dom().contains(k) ==> json_eq(x[k], y[k])
        },
        _ => false,
    }
}

/// Every JSON value equals itself.
pub proof fn json_eq_is_reflexive(a: JsonView)
    ensures
        json_eq(a, a),
    decreases a,
{
    reveal_with_fuel(json_eq, 2);
    match a {
        JsonView::Array(x) => {
            assert forall|i: int| 0 <= i < x.len() implies json_eq(#[trigger] x[i], x[i]) by {
                json_eq_is_reflexive(x[i]);
            }
        },
        JsonView::Object(x) => {
            assert forall|k: Seq<char>| #[trigger] x.dom().contains(k) implies json_eq(
                x[k],
                x[k],
            ) by {
                json_eq_is_reflexive(x[k]);
            }
        },
        _ => {},
    }
}

/// Entries with the same keys in the same places make objects with the same keys.
proof fn lemma_same_keys(a: Seq<(String, Json)>, b: Seq<(String, Json)>)
    requires
        in_order(a),
        in_order(b),
        a.len() == b.len(),
        forall|i: int| 0 <= i < a.len() ==> #[trigger] a[i].0@ == #[trigger] b[i].0@,
    ensures
        members(a).dom() == members(b).dom(),
{
    lemma_members(a);
    lemma_members(b);
    assert forall|k: Seq<char>| members(a).dom().contains(k) <==> members(b).dom().contains(k) by {
        if members(a).dom().contains(k) {
            let i = choose|i: int| 0 <= i < a.len() && #[trigger] a[i].0@ == k;
            assert(b[i].0@ == k);
        }
        if members(b).dom().contains(k) {
            let i = choose|i: int| 0 <= i < b.len() && #[trigger] b[i].0@ == k;
            assert(a[i].0@ == k);
        }
    }
    assert(members(a).dom() =~= members(b).dom());
}

/// Where the keys of two objects first differ, one object has a key that the other lacks.
proof fn lemma_first_difference(a: Seq<(String, Json)>, b: Seq<(String, Json)>, at: int)
    requires
        in_order(a),
        in_order(b),
        0 <= at <= a.len(),
        at <= b.len(),
        forall|i: int| 0 <= i < at ==> #[trigger] a[i].0@ == #[trigger] b[i].0@,
        at < a.len(),
        at < b.len() ==> before(a[at].0@, b[at].0@),
    ensures
        members(a).dom() != members(b).dom(),
{
    lemma_members(a);
    lemma_members(b);
    let k = a[at].0@;
    assert(members(a).dom().contains(k));
    if members(b).dom().contains(k) {
        let j = choose|j: int| 0 <= j < b.len() && #[trigger] b[j].0@ == k;
        before_is_irreflexive(k);
        if j < at {
            assert(before(a[j].0@, a[at].0@));
        } else if j > at {
            assert(before(b[at].0@, b[j].0@));
            before_is_transitive(k, b[at].0@, k);
        }
    }
}

impl Clone for Json {
    fn clone(&self) -> (r: Json)
        ensures
            r@ == self@,
        decreases self,
    {
        match self {
            Json::Null => Json::Null,
            Json::Bool(b) => Json::Bool(*b),
            Json::Num(n) => Json::Num(n.clone()),
            Json::Text(text) => Json::Text(text.clone()),
            Json::Array(items) => {
                let mut copy: Vec<Json> = Vec::new();
                for i in 0..items.len()
                    invariant
                        *self == Json::Array(*items),
                        copy@.len() == i,
                        forall|k: int| 0 <= k < i ==> (#[trigger] copy@[k])@ == items@[k]@,
                {
                    assert(decreases_to!(self => self->Array_0));
                    copy.push(items[i].clone());
                }
                let r = Json::Array(copy);
                assert(r@->Array_0 =~= self@->Array_0);
                r
            },
            Json::Object(object) => Json::Object(object.clone()),
        }
    }
}

impl Clone for Object {
    fn clone(&self) -> (r: Object)
        ensures
            r@ == self@,
        decreases self,
    {
        proof {
            use_type_invariant(self);
        }
        let mut copy: Vec<(String, Json)> = Vec::new();
        for i in 0..self.entries.len()
            invariant
                copy@.len() == i,
                forall|k: int|
                    0 <= k < i ==> (#[trigger] copy@[k]).0@ == self.entries@[k].0@ && copy@[k].1@
                        == self.entries@[k].1@,
        {
            assert(decreases_to!(self => self.entries@[i as int].1));
            copy.push((self.entries[i].0.clone(), self.entries[i].1.clone()));
        }
        proof {
            lemma_same_entries(copy@, self.entries@);
        }
        Object { entries: copy }
    }
}

/// Entries with the same keys and members make the same object.
proof fn lemma_same_entries(a: Seq<(String, Json)>, b: Seq<(String, Json)>)
    requires
        in_order(b),
        a.len() == b.len(),
        forall|k: int| 0 <= k < a.len() ==> (#[trigger] a[k]).0@ == b[k].0@ && a[k].1@ == b[k].1@,
    ensures
        in_order(a),
        members(a) == members(b),
    decreases a.len(),
{
    assert forall|i: int, j: int| 0 <= i < j < a.len() implies before(
        #[trigger] a[i].0@,
        #[trigger] a[j].0@,
    ) by {
        assert(before(b[i].0@, b[j].0@));
    }
    if a.len() > 0 {
        assert forall|k: int| 0 <= k < a.len() - 1 implies (#[trigger] a.drop_last()[k]).0@
            == b.drop_last()[k].0@ && a.drop_last()[k].1@ == b.drop_last()[k].1@ by {
            assert(a[k].0@ == b[k].0@);
        }
        lemma_same_entries(a.drop_last(), b.drop_last());
    }
}

impl Json {
    /// Whether two values are equal.
    pub fn same(&self, other: &Json) -> (r: bool)
        ensures
            r == json_eq(self@, other@),
        decreases self,
    {
        match (self, other) {
            (Json::Null, Json::Null) => true,
            (Json::Bool(a), Json::Bool(b)) => *a == *b,
            (Json::Num(a), Json::Num(b)) => same_number(a, b),
            (Json::Text(a), Json::Text(b)) => *a == *b,
            (Json::Array(a), Json::Array(b)) => {
                if a.len() != b.len() {
                    return false;
                }
                for i in 0..a.len()
                    invariant
                        *self == Json::Array(*a),
                        *other == Json::Array(*b),
                        a@.len() == b@.len(),
                        forall|k: int|
                            0 <= k < i ==> json_eq(
                                #[trigger] self@->Array_0[k],
                                other@->Array_0[k],
                            ),
                {
                    assert(decreases_to!(self => a@[i as int]));
                    if !a[i].same(&b[i]) {
                        proof {
                            reveal_with_fuel(json_eq, 2);
                            assert(!json_eq(
                                self@->Array_0[i as int],
                                other@->Array_0[i as int],
                            ));
                        }
                        return false;
                    }
                }
                true
            },
            (Json::Object(a), Json::Object(b)) => a.same(b),
            _ => false,
        }
    }
}

impl Object {
    /// Whether two objects have the same keys and equal members.
    pub fn same(&self, other: &Object) -> (r: bool)
        ensures
            r == json_eq(JsonView::Object(self@), JsonView::Object(other@)),
        decreases self,
    {
        proof {
            use_type_invariant(self);
            use_type_invariant(other);
            lemma_members(self.entries@);
            lemma_members(other.entries@);
        }
        for i in 0..self.entries.len()
            invariant
                in_order(self.entries@),
                in_order(other.entries@),
                i <= other.entries@.len(),
                forall|k: int|
                    0 <= k < i ==> #[trigger] self.entries@[k].0@
                        == #[trigger] other.entries@[k].0@,
                forall|k: int|
                    0 <= k < i ==> json_eq(
                        #[trigger] self.entries@[k].1@,
                        other.entries@[k].1@,
                    ),
        {
            assert(decreases_to!(self => self.entries@[i as int].1));
            if i >= other.entries.len() {
                proof {
                    lemma_first_difference(self.entries@, other.entries@, i as int);
                }
                return false;
            }
            if !same(self.entries[i].0.as_str(), other.entries[i].0.as_str()) {
                proof {
                    let (x, y) = (self.entries@, other.entries@);
                    before_is_total(x[i as int].0@, y[i as int].0@);
                    if before(x[i as int].0@, y[i as int].0@) {
                        lemma_first_difference(x, y, i as int);
                    } else {
                        lemma_first_difference(y, x, i as int);
                    }
                }
                return false;
            }
            if !self.entries[i].1.same(&other.entries[i].1) {
                proof {
                    reveal_with_fuel(json_eq, 2);
                    lemma_members(self.entries@);
                    lemma_members(other.entries@);
                    let k = self.entries@[i as int].0@;
                    assert(other.entries@[i as int].0@ == k);
                    assert(!json_eq(self@[k], other@[k]));
                }
                return false;
            }
        }
        if self.entries.len() != other.entries.len() {
            proof {
                lemma_first_difference(
                    other.entries@,
                    self.entries@,
                    self.entries@.len() as int,
                );
            }
            return false;
        }
        proof {
            reveal_with_fuel(json_eq, 2);
            lemma_same_keys(self.entries@, other.entries@);
            lemma_members(self.entries@);
            lemma_members(other.entries@);
            assert forall|k: Seq<char>| #[trigger] self@.dom().contains(k) implies json_eq(
                self@[k],
                other@[k],
            ) by {
                let i = choose|i: int|
                    0 <= i < self.entries@.len() && #[trigger] self.entries@[i].0@ == k;
                assert(other.entries@[i].0@ == k);
                assert(json_eq(self.entries@[i].1@, other.entries@[i].1@));
            }
        }
        true
    }
}

impl PartialEq for Json {
    fn eq(&self, other: &Json) -> (r: bool) {
        self.same(other)
    }
}

impl vstd::std_specs::cmp::PartialEqSpecImpl for Json {
    open spec fn obeys_eq_spec() -> bool {
        true
    }

    open spec fn eq_spec(&self, other: &Json) -> bool {
        json_eq(self@, other@)
    }
}

// ---------------------------------------------------------------------------
// Reading and building
// ---------------------------------------------------------------------------

/// The values of a sequence of elements.
pub open spec fn views(items: Seq<Json>) -> Seq<JsonView> {
    items.map_values(|item: Json| item@)
}

/// The member of an object, if the value is an object that has it.
pub open spec fn member(v: JsonView, key: Seq<char>) -> Option<JsonView> {
    match v {
        JsonView::Object(members) => if members.dom().contains(key) {
            Some(members[key])
        } else {
            None
        },
        _ => None,
    }
}

/// The member of an object, or null where there is none.
pub open spec fn field(v: JsonView, key: Seq<char>) -> JsonView {
    match member(v, key) {
        Some(value) => value,
        None => JsonView::Null,
    }
}

/// The text of a text value.
pub open spec fn text_of(v: JsonView) -> Option<Seq<char>> {
    match v {
        JsonView::Text(text) => Some(text),
        _ => None,
    }
}

/// The elements of an array.
pub open spec fn items_of(v: JsonView) -> Option<Seq<JsonView>> {
    match v {
        JsonView::Array(items) => Some(items),
        _ => None,
    }
}

/// The value of an integer from 0 to `u64::MAX`.
pub open spec fn unsigned_of(v: JsonView) -> Option<u64> {
    match v {
        JsonView::Num(NumberView::Pos(u)) => Some(u),
        _ => None,
    }
}

/// The object that setting a member makes of an object, or of nothing.
pub open spec fn put(v: JsonView, key: Seq<char>, value: JsonView) -> JsonView {
    match v {
        JsonView::Object(members) => JsonView::Object(members.insert(key, value)),
        _ => JsonView::Object(Map::<Seq<char>, JsonView>::empty().insert(key, value)),
    }
}

/// The object without members.
pub open spec fn no_members() -> Map<Seq<char>, JsonView> {
    Map::empty()
}

impl Json {
    /// The member with this key, if this is an object that has it.
    pub fn get(&self, key: &str) -> (r: Option<&Json>)
        ensures
            match r {
                Some(value) => member(self@, key@) == Some(value@),
                None => member(self@, key@) is None,
            },
    {
        match self {
            Json::Object(object) => object.get(key),
            _ => None,
        }
    }

    /// The member with this key, or null where there is none.
    pub fn at(&self, key: &str) -> (r: &Json)
        ensures
            r@ == field(self@, key@),
    {
        match self.get(key) {
            Some(value) => value,
            None => &Json::Null,
        }
    }

    /// The text of a text value.
    pub fn as_str(&self) -> (r: Option<&str>)
        ensures
            match r {
                Some(text) => text_of(self@) == Some(text@),
                None => text_of(self@) is None,
            },
    {
        match self {
            Json::Text(text) => Some(text.as_str()),
            _ => None,
        }
    }

    /// Whether this is the given text.
    pub fn is_text(&self, text: &str) -> (r: bool)
        ensures
            r == (self@ == JsonView::Text(text@)),
    {
        match self {
            Json::Text(mine) => same(mine.as_str(), text),
            _ => false,
        }
    }

    /// The elements of an array.
    pub fn as_array(&self) -> (r: Option<&Vec<Json>>)
        ensures
            match r {
                Some(items) => items_of(self@) == Some(views(items@)),
                None => items_of(self@) is None,
            },
    {
        match self {
            Json::Array(items) => {
                assert(self@->Array_0 =~= views(items@));
                Some(items)
            },
            _ => None,
        }
    }

    /// The members of an object.
    pub fn as_object(&self) -> (r: Option<&Object>)
        ensures
            match r {
                Some(object) => self@ == JsonView::Object(object@),
                None => !(self@ is Object),
            },
    {
        match self {
            Json::Object(object) => Some(object),
            _ => None,
        }
    }

    /// The value of an integer from 0 to `u64::MAX`.
    pub fn as_u64(&self) -> (r: Option<u64>)
        ensures
            r == unsigned_of(self@),
    {
        match self {
            Json::Num(n) => number_as_u64(n),
            _ => None,
        }
    }

    /// Whether this is null.
    pub fn is_null(&self) -> (r: bool)
        ensures
            r == (self@ is Null),
    {
        match self {
            Json::Null => true,
            _ => false,
        }
    }

    /// A text value.
    pub fn text(text: &str) -> (r: Json)
        ensures
            r@ == JsonView::Text(text@),
    {
        Json::Text(text.to_owned())
    }

    /// The number of an unsigned integer.
    pub fn from_u64(u: u64) -> (r: Json)
        ensures
            r@ == JsonView::Num(NumberView::Pos(u)),
    {
        Json::Num(number_from_u64(u))
    }

    /// The number of a signed integer.
    pub fn from_i64(i: i64) -> (r: Json)
        ensures
            r@ == JsonView::Num(
                if i < 0 {
                    NumberView::Neg(i)
                } else {
                    NumberView::Pos(i as u64)
                },
            ),
    {
        Json::Num(number_from_i64(i))
    }

    /// An array.
    pub fn list(items: Vec<Json>) -> (r: Json)
        ensures
            r@ == JsonView::Array(views(items@)),
    {
        let r = Json::Array(items);
        assert(r@->Array_0 =~= views(items@));
        r
    }

    /// The object that setting a member makes of this object, or of anything else.
    pub fn with(self, key: &str, value: Json) -> (r: Json)
        ensures
            r@ == put(self@, key@, value@),
    {
        match self {
            Json::Object(object) => Json::Object(object.with(key, value)),
            _ => Json::Object(Object::new().with(key, value)),
        }
    }
}

impl Object {
    /// This object with one more member.
    pub fn with(self, key: &str, value: Json) -> (r: Object)
        ensures
            r@ == self@.insert(key@, value@),
    {
        let mut object = self;
        object.insert(key.to_owned(), value);
        object
    }
}

// ---------------------------------------------------------------------------
// Laws
// ---------------------------------------------------------------------------

/// The members of an object are found by their keys, and nothing else has members.
pub proof fn members_are_found_by_key(
    members: Map<Seq<char>, JsonView>,
    v: JsonView,
    key: Seq<char>,
)
    ensures
        members.dom().contains(key) ==> member(JsonView::Object(members), key) == Some(
            members[key],
        ) && field(JsonView::Object(members), key) == members[key],
        !members.dom().contains(key) ==> member(JsonView::Object(members), key) is None && field(
            JsonView::Object(members),
            key,
        ) is Null,
        !(v is Object) ==> member(v, key) is None && field(v, key) is Null,
{
}

/// Every kind of value holds what it holds, and nothing of another kind.
pub proof fn values_hold_what_they_hold(
    v: JsonView,
    text: Seq<char>,
    items: Seq<JsonView>,
    u: u64,
)
    ensures
        text_of(v) == Some(text) <==> v == JsonView::Text(text),
        items_of(v) == Some(items) <==> v == JsonView::Array(items),
        unsigned_of(v) == Some(u) <==> v == JsonView::Num(NumberView::Pos(u)),
        text_of(v) is None <==> !(v is Text),
        items_of(v) is None <==> !(v is Array),
{
}

/// Setting a member sets that one, and leaves the others of an object as they are.
pub proof fn setting_a_member_leaves_the_others(
    v: JsonView,
    key: Seq<char>,
    other: Seq<char>,
    value: JsonView,
)
    ensures
        member(put(v, key, value), key) == Some(value),
        other != key ==> member(put(v, key, value), other) == member(v, other),
{
}

/// Texts and integers are equal only to themselves, so requests are told apart by their IDs.
pub proof fn ids_are_equal_only_to_themselves(a: JsonView, b: JsonView)
    requires
        a is Text || a is Null || a is Bool || (a is Num && !(a->Num_0 is Float)),
    ensures
        json_eq(a, b) <==> a == b,
        json_eq(b, a) <==> a == b,
{
}

} // verus!
