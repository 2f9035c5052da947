//! JSON values: the tree that the gateway's rules read and build, and its passage to and from the
//! bytes that `serde_json` reads and writes.
use crate::text;
use vstd::prelude::*;

verus! {

/// The type `serde_json::Value`, carried as it is.
#[verifier::external_type_specification]
#[verifier::external_body]
pub struct ExValue(serde_json::Value);

/// The type `serde_json::Number`, carried as it is.
#[verifier::external_type_specification]
#[verifier::external_body]
pub struct ExNumber(serde_json::Number);

/// The type `serde_json::Error`, carried as it is.
#[verifier::external_type_specification]
#[verifier::external_body]
pub struct ExJsonError(serde_json::Error);

/// A number that is no 64-bit integer, kept as `serde_json` read it. Values come from parsed JSON
/// only.
pub struct JsonFloat {
    number: serde_json::Number,
}

/// What a JSON value is.
pub enum Tree {
    Null,
    Bool(bool),
    Integer(int),
    Float(JsonFloat),
    Text(Seq<char>),
    Array(Seq<Tree>),
    Object(Seq<(Seq<char>, Tree)>),
}

/// The value that `entries` give to `key`.
pub open spec fn lookup(entries: Seq<(Seq<char>, Tree)>, key: Seq<char>) -> Option<Tree>
    decreases entries.len(),
{
    if entries.len() == 0 {
        None
    } else if entries[0].0 == key {
        Some(entries[0].1)
    } else {
        lookup(entries.skip(1), key)
    }
}

/// `entries` with `key` set to `value`, in the order of keys.
pub open spec fn with_entry(
    entries: Seq<(Seq<char>, Tree)>,
    key: Seq<char>,
    value: Tree,
) -> Seq<(Seq<char>, Tree)>
    decreases entries.len(),
{
    if entries.len() == 0 || text::text_less(key, entries[0].0) {
        seq![(key, value)] + entries
    } else if entries[0].0 == key {
        seq![(key, value)] + entries.skip(1)
    } else {
        seq![entries[0]] + with_entry(entries.skip(1), key, value)
    }
}

/// The entries that come of setting each of `pairs` in turn.
pub open spec fn entries_of(pairs: Seq<(Seq<char>, Tree)>) -> Seq<(Seq<char>, Tree)>
    decreases pairs.len(),
{
    if pairs.len() == 0 {
        Seq::empty()
    } else {
        with_entry(entries_of(pairs.drop_last()), pairs.last().0, pairs.last().1)
    }
}

/// The object with the given members.
pub open spec fn object(pairs: Seq<(Seq<char>, Tree)>) -> Tree {
    Tree::Object(entries_of(pairs))
}

/// Whether the keys ascend strictly: they are in order, and none occurs twice.
pub open spec fn ascending(entries: Seq<(Seq<char>, Tree)>) -> bool {
    forall|i: int, j: int|
        0 <= i < j < entries.len() ==> text::text_less((#[trigger] entries[i]).0, (#[trigger] entries[j]).0)
}

impl Tree {
    /// The member `key`, where this is an object that has it.
    pub open spec fn get(self, key: Seq<char>) -> Option<Tree> {
        match self {
            Tree::Object(entries) => lookup(entries, key),
            _ => None,
        }
    }

    /// The text, where this is one.
    pub open spec fn text(self) -> Option<Seq<char>> {
        match self {
            Tree::Text(s) => Some(s),
            _ => None,
        }
    }

    /// The boolean, where this is one.
    pub open spec fn boolean(self) -> Option<bool> {
        match self {
            Tree::Bool(b) => Some(b),
            _ => None,
        }
    }

    /// The integer, where this is one that fits in 64 bits with a sign.
    pub open spec fn int64(self) -> Option<int> {
        match self {
            Tree::Integer(n) => if i64::MIN <= n <= i64::MAX {
                Some(n)
            } else {
                None
            },
            _ => None,
        }
    }

    /// The items, where this is an array.
    pub open spec fn items(self) -> Option<Seq<Tree>> {
        match self {
            Tree::Array(items) => Some(items),
            _ => None,
        }
    }

    /// The text of the member `key`.
    pub open spec fn get_text(self, key: Seq<char>) -> Option<Seq<char>> {
        match self.get(key) {
            Some(value) => value.text(),
            None => None,
        }
    }
}

/// A JSON value.
pub enum Json {
    Null,
    Bool(bool),
    Unsigned(u64),
    Signed(i64),
    Float(JsonFloat),
    Text(String),
    Array(Vec<Json>),
    Object(JsonMap),
}

/// The members of a JSON object, in the order of their keys, each key once.
pub struct JsonMap {
    entries: Vec<(String, Json)>,
}

impl JsonMap {
    #[verifier::type_invariant]
    spec fn keys_ascend(self) -> bool {
        ascending(self@)
    }
}

impl View for JsonMap {
    type V = Seq<(Seq<char>, Tree)>;

    closed spec fn view(&self) -> Seq<(Seq<char>, Tree)>
        decreases self,
    {
        Seq::new(
            self.entries@.len(),
            |i: int|
                if 0 <= i < self.entries@.len() {
                    (self.entries@[i].0@, self.entries@[i].1.view())
                } else {
                    arbitrary()
                },
        )
    }
}

/// What a list of values holds.
pub open spec fn trees(values: Seq<Json>) -> Seq<Tree>
    decreases values,
{
    Seq::new(
        values.len(),
        |i: int|
            if 0 <= i < values.len() {
                values[i].view()
            } else {
                arbitrary()
            },
    )
}

impl View for Json {
    type V = Tree;

    open spec fn view(&self) -> Tree
        decreases self,
    {
        match self {
            Json::Null => Tree::Null,
            Json::Bool(b) => Tree::Bool(*b),
            Json::Unsigned(n) => Tree::Integer(*n as int),
            Json::Signed(n) => Tree::Integer(*n as int),
            Json::Float(x) => Tree::Float(*x),
            Json::Text(s) => Tree::Text(s@),
            Json::Array(items) => Tree::Array(trees(items@)),
            Json::Object(map) => Tree::Object(map.view()),
        }
    }
}

/// Where `key` stands in `entries`, `lookup` finds it there, and nowhere before.
proof fn lemma_lookup_at(entries: Seq<(Seq<char>, Tree)>, key: Seq<char>, n: int)
    requires
        0 <= n < entries.len(),
        entries[n].0 == key,
        forall|i: int| 0 <= i < n ==> (#[trigger] entries[i]).0 != key,
    ensures
        lookup(entries, key) == Some(entries[n].1),
    decreases n,
{
    if n > 0 {
        let rest = entries.skip(1);
        assert(entries[0].0 != key);
        assert forall|i: int| 0 <= i < n - 1 implies (#[trigger] rest[i]).0 != key by {
            assert(rest[i] == entries[i + 1]);
        }
        assert(rest[n - 1] == entries[n]);
        lemma_lookup_at(rest, key, n - 1);
    }
}

/// Where `key` does not stand in `entries`, `lookup` finds nothing.
proof fn lemma_lookup_absent(entries: Seq<(Seq<char>, Tree)>, key: Seq<char>)
    requires
        forall|i: int| 0 <= i < entries.len() ==> (#[trigger] entries[i]).0 != key,
    ensures
        lookup(entries, key) is None,
    decreases entries.len(),
{
    if entries.len() > 0 {
        let rest = entries.skip(1);
        assert(entries[0].0 != key);
        assert forall|i: int| 0 <= i < rest.len() implies (#[trigger] rest[i]).0 != key by {
            assert(rest[i] == entries[i + 1]);
        }
        lemma_lookup_absent(rest, key);
    }
}

/// Reading an object after a member was set: the member has the new value, every other member has
/// what it had.
pub proof fn lookup_after_with_entry(
    entries: Seq<(Seq<char>, Tree)>,
    key: Seq<char>,
    value: Tree,
    other: Seq<char>,
)
    ensures
        lookup(with_entry(entries, key, value), other) == (if other == key {
            Some(value)
        } else {
            lookup(entries, other)
        }),
    decreases entries.len(),
{
    let result = with_entry(entries, key, value);
    if entries.len() == 0 || text::text_less(key, entries[0].0) {
        assert(result.skip(1) == entries);
    } else if entries[0].0 == key {
        assert(result.skip(1) == entries.skip(1));
    } else {
        assert(result.skip(1) == with_entry(entries.skip(1), key, value));
        lookup_after_with_entry(entries.skip(1), key, value, other);
    }
}

/// The member of an object that was made of `pairs`: the last pair with the key gives it.
pub proof fn member_of_object(pairs: Seq<(Seq<char>, Tree)>, n: int)
    requires
        0 <= n < pairs.len(),
        forall|i: int| n < i < pairs.len() ==> (#[trigger] pairs[i]).0 != pairs[n].0,
    ensures
        object(pairs).get(pairs[n].0) == Some(pairs[n].1),
    decreases pairs.len(),
{
    let before = pairs.drop_last();
    lookup_after_with_entry(entries_of(before), pairs.last().0, pairs.last().1, pairs[n].0);
    if n < pairs.len() - 1 {
        assert(pairs[pairs.len() - 1].0 != pairs[n].0);
        assert(before[n] == pairs[n]);
        member_of_object(before, n);
    }
}

/// An object that was made of `pairs` has no member that none of them names.
pub proof fn only_members_of_object(pairs: Seq<(Seq<char>, Tree)>, key: Seq<char>)
    requires
        forall|i: int| 0 <= i < pairs.len() ==> (#[trigger] pairs[i]).0 != key,
    ensures
        object(pairs).get(key) is None,
    decreases pairs.len(),
{
    if pairs.len() > 0 {
        let before = pairs.drop_last();
        assert forall|i: int| 0 <= i < before.len() implies (#[trigger] before[i]).0 != key by {
            assert(before[i] == pairs[i]);
        }
        only_members_of_object(before, key);
        assert(pairs[pairs.len() - 1].0 != key);
        lookup_after_with_entry(entries_of(before), pairs.last().0, pairs.last().1, key);
    }
}

/// Setting a key that is not in the first `n` entries, and comes before none of them, leaves them
/// as they are.
proof fn lemma_with_entry_at(
    entries: Seq<(Seq<char>, Tree)>,
    key: Seq<char>,
    value: Tree,
    n: int,
)
    requires
        0 <= n <= entries.len(),
        forall|i: int|
            0 <= i < n ==> (#[trigger] entries[i]).0 != key && !text::text_less(key, entries[i].0),
    ensures
        with_entry(entries, key, value) == entries.take(n) + with_entry(
            entries.skip(n),
            key,
            value,
        ),
    decreases n,
{
    if n == 0 {
        assert(entries.skip(0) == entries);
        assert(entries.take(0) + with_entry(entries, key, value) == with_entry(entries, key, value));
    } else {
        let rest = entries.skip(1);
        assert(entries[0].0 != key);
        assert forall|i: int| 0 <= i < n - 1 implies (#[trigger] rest[i]).0 != key
            && !text::text_less(key, rest[i].0) by {
            assert(rest[i] == entries[i + 1]);
        }
        lemma_with_entry_at(rest, key, value, n - 1);
        assert(rest.skip(n - 1) == entries.skip(n));
        assert(seq![entries[0]] + (rest.take(n - 1) + with_entry(entries.skip(n), key, value))
            == entries.take(n) + with_entry(entries.skip(n), key, value));
    }
}

/// What the entries of an object hold.
spec fn content(entries: Seq<(String, Json)>) -> Seq<(Seq<char>, Tree)> {
    Seq::new(entries.len(), |i: int| (entries[i].0@, entries[i].1@))
}

/// Setting a member keeps the keys in order, each once.
pub proof fn with_entry_keeps_order(entries: Seq<(Seq<char>, Tree)>, key: Seq<char>, value: Tree)
    requires
        ascending(entries),
    ensures
        ascending(with_entry(entries, key, value)),
        forall|i: int|
            0 <= i < with_entry(entries, key, value).len() ==> {
                ||| (#[trigger] with_entry(entries, key, value)[i]).0 == key
                ||| exists|k: int|
                    0 <= k < entries.len() && (#[trigger] entries[k]).0 == with_entry(
                        entries,
                        key,
                        value,
                    )[i].0
            },
    decreases entries.len(),
{
    let result = with_entry(entries, key, value);
    if entries.len() == 0 || text::text_less(key, entries[0].0) {
        assert forall|i: int, j: int| 0 <= i < j < result.len() implies text::text_less(
            (#[trigger] result[i]).0,
            (#[trigger] result[j]).0,
        ) by {
            assert(result[j] == entries[j - 1]);
            if i == 0 {
                if j > 1 {
                    text::text_less_transitive(key, entries[0].0, entries[j - 1].0);
                }
            } else {
                assert(result[i] == entries[i - 1]);
            }
        }
        assert forall|i: int| 0 <= i < result.len() implies (#[trigger] result[i]).0 == key
            || exists|k: int| 0 <= k < entries.len() && (#[trigger] entries[k]).0 == result[i].0 by {
            if i > 0 {
                assert(entries[i - 1] == result[i]);
            }
        }
    } else if entries[0].0 == key {
        assert(forall|i: int| 1 <= i < result.len() ==> #[trigger] result[i] == entries[i]);
    } else {
        let rest = entries.skip(1);
        assert forall|i: int, j: int| 0 <= i < j < rest.len() implies text::text_less(
            (#[trigger] rest[i]).0,
            (#[trigger] rest[j]).0,
        ) by {
            assert(rest[i] == entries[i + 1]);
            assert(rest[j] == entries[j + 1]);
        }
        with_entry_keeps_order(rest, key, value);
        let inner = with_entry(rest, key, value);
        text::text_less_total(entries[0].0, key);
        assert(forall|j: int| 0 <= j < inner.len() ==> #[trigger] inner[j] == result[j + 1]);
        assert forall|i: int, j: int| 0 <= i < j < result.len() implies text::text_less(
            (#[trigger] result[i]).0,
            (#[trigger] result[j]).0,
        ) by {
            assert(inner[j - 1] == result[j]);
            if i == 0 {
                if result[j].0 != key {
                    let k = choose|k: int|
                        0 <= k < rest.len() && (#[trigger] rest[k]).0 == inner[j - 1].0;
                    assert(rest[k] == entries[k + 1]);
                }
            } else {
                assert(inner[i - 1] == result[i]);
            }
        }
        assert forall|i: int| 0 <= i < result.len() implies (#[trigger] result[i]).0 == key
            || exists|k: int| 0 <= k < entries.len() && (#[trigger] entries[k]).0 == result[i].0 by {
            if i == 0 {
                assert(entries[0].0 == result[0].0);
            } else {
                assert(inner[i - 1] == result[i]);
                if result[i].0 != key {
                    let k = choose|k: int|
                        0 <= k < rest.len() && (#[trigger] rest[k]).0 == inner[i - 1].0;
                    assert(rest[k] == entries[k + 1]);
                }
            }
        }
    }
}

impl JsonMap {
    /// An object without members.
    pub fn new() -> (r: JsonMap)
        ensures
            r@ == Seq::<(Seq<char>, Tree)>::empty(),
    {
        let r = JsonMap { entries: Vec::new() };
        r
    }

    /// The number of members.
    pub fn len(&self) -> (r: usize)
        ensures
            r == self@.len(),
    {
        self.entries.len()
    }

    /// The key and the value of the member at `i`, in the order of keys.
    pub fn entry(&self, i: usize) -> (r: (&String, &Json))
        requires
            i < self@.len(),
        ensures
            (r.0@, r.1@) == self@[i as int],
            decreases_to!(self => r.1),
    {
        (&self.entries[i].0, &self.entries[i].1)
    }

    /// The value of the member `key`.
    pub fn get(&self, key: &str) -> (r: Option<&Json>)
        ensures
            match r {
                Some(value) => lookup(self@, key@) == Some(value@),
                None => lookup(self@, key@) is None,
            },
    {
        let mut i: usize = 0;
        while i < self.entries.len()
            invariant
                i <= self.entries@.len() == self@.len(),
                forall|k: int| 0 <= k < i ==> (#[trigger] self@[k]).0 != key@,
            decreases self.entries@.len() - i,
        {
            if text::same_text(self.entries[i].0.as_str(), key) {
                proof {
                    assert(self@[i as int].0 == key@);
                    lemma_lookup_at(self@, key@, i as int);
                }
                return Some(&self.entries[i].1);
            }
            assert(self@[i as int].0 != key@);
            i += 1;
        }
        proof {
            lemma_lookup_absent(self@, key@);
        }
        None
    }

    /// Sets the member `key` to `value`.
    pub fn insert(&mut self, key: String, value: Json)
        ensures
            final(self)@ == with_entry(old(self)@, key@, value@),
    {
        proof {
            use_type_invariant(&*self);
        }
        let ghost before = self@;
        let mut n: usize = 0;
        while n < self.entries.len() && text::is_before(
            self.entries[n].0.as_str(),
            key.as_str(),
        )
            invariant
                n <= self.entries@.len() == self@.len(),
                self@ == before,
                forall|k: int| 0 <= k < n ==> text::text_less((#[trigger] self@[k]).0, key@),
            decreases self.entries@.len() - n,
        {
            assert(text::text_less(self@[n as int].0, key@));
            n += 1;
        }
        proof {
            assert forall|i: int| 0 <= i < n implies (#[trigger] before[i]).0 != key@
                && !text::text_less(key@, before[i].0) by {
                text::text_less_irreflexive(key@);
                if text::text_less(key@, before[i].0) {
                    text::text_less_transitive(key@, before[i].0, key@);
                }
            }
            lemma_with_entry_at(before, key@, value@, n as int);
        }
        let mut entries: Vec<(String, Json)> = Vec::new();
        std::mem::swap(&mut entries, &mut self.entries);
        assert(before == content(entries@));
        if n < entries.len() && text::same_text(entries[n].0.as_str(), key.as_str()) {
            proof {
                let after = entries@.update(n as int, (key, value));
                let rest = before.skip(n as int);
                assert(rest[0].0 == key@);
                text::text_less_irreflexive(key@);
                assert(content(after) == before.take(n as int) + with_entry(rest, key@, value@));
                with_entry_keeps_order(before, key@, value@);
            }
            entries[n] = (key, value);
            proof {
                assert((JsonMap { entries })@ == content(entries@));
            }
            let updated = JsonMap { entries };
            *self = updated;
        } else {
            proof {
                let after = entries@.insert(n as int, (key, value));
                let rest = before.skip(n as int);
                if n < before.len() {
                    text::text_less_total(rest[0].0, key@);
                    assert(rest[0] == before[n as int]);
                }
                assert(content(after) == before.take(n as int) + with_entry(rest, key@, value@));
                with_entry_keeps_order(before, key@, value@);
            }
            entries.insert(n, (key, value));
            proof {
                assert((JsonMap { entries })@ == content(entries@));
            }
            let updated = JsonMap { entries };
            *self = updated;
        }
    }
}

/// What an optional reference to a value holds.
pub open spec fn opt_tree(value: Option<&Json>) -> Option<Tree> {
    match value {
        Some(value) => Some(value@),
        None => None,
    }
}

impl Json {
    /// The member `key`, where this is an object that has it.
    pub fn get(&self, key: &str) -> (r: Option<&Json>)
        ensures
            opt_tree(r) == self@.get(key@),
    {
        match self {
            Json::Object(map) => map.get(key),
            _ => None,
        }
    }

    /// The text, where this is one.
    pub fn as_text(&self) -> (r: Option<&String>)
        ensures
            match r {
                Some(s) => self@.text() == Some(s@),
                None => self@.text() is None,
            },
    {
        match self {
            Json::Text(s) => Some(s),
            _ => None,
        }
    }

    /// The boolean, where this is one.
    pub fn as_bool(&self) -> (r: Option<bool>)
        ensures
            r == self@.boolean(),
    {
        match self {
            Json::Bool(b) => Some(*b),
            _ => None,
        }
    }

    /// The integer, where this is one that fits.
    pub fn as_i64(&self) -> (r: Option<i64>)
        ensures
            match r {
                Some(n) => self@.int64() == Some(n as int),
                None => self@.int64() is None,
            },
    {
        match self {
            Json::Signed(n) => Some(*n),
            Json::Unsigned(n) => if *n <= 0x7fff_ffff_ffff_ffff {
                Some(*n as i64)
            } else {
                None
            },
            _ => None,
        }
    }

    /// The items, where this is an array.
    pub fn as_array(&self) -> (r: Option<&Vec<Json>>)
        ensures
            match r {
                Some(items) => self@.items() == Some(trees(items@)),
                None => self@.items() is None,
            },
    {
        match self {
            Json::Array(items) => Some(items),
            _ => None,
        }
    }

    /// Whether this is `null`.
    pub fn is_null(&self) -> (r: bool)
        ensures
            r == (self@ is Null),
    {
        match self {
            Json::Null => true,
            _ => false,
        }
    }

    /// The text of the member `key`.
    pub fn get_text(&self, key: &str) -> (r: Option<&String>)
        ensures
            match r {
                Some(s) => self@.get_text(key@) == Some(s@),
                None => self@.get_text(key@) is None,
            },
    {
        match self.get(key) {
            Some(value) => value.as_text(),
            None => None,
        }
    }

    /// The value `s`, as text.
    pub fn text(s: &str) -> (r: Json)
        ensures
            r@ == Tree::Text(s@),
    {
        Json::Text(s.to_owned())
    }

    /// The array of `items`.
    pub fn array(items: Vec<Json>) -> (r: Json)
        ensures
            r@ == Tree::Array(trees(items@)),
    {
        Json::Array(items)
    }
}

/// `serde_json::Number::clone` gives an equal number.
#[verifier::external_body]
fn copy_number(number: &serde_json::Number) -> (r: serde_json::Number)
    ensures
        r == *number,
{
    number.clone()
}

impl Clone for JsonFloat {
    fn clone(&self) -> (r: JsonFloat)
        ensures
            r == *self,
    {
        JsonFloat { number: copy_number(&self.number) }
    }
}

impl Clone for JsonMap {
    fn clone(&self) -> (r: JsonMap)
        ensures
            r@ == self@,
        decreases self,
    {
        proof {
            use_type_invariant(self);
        }
        let mut entries: Vec<(String, Json)> = Vec::new();
        let mut i: usize = 0;
        while i < self.entries.len()
            invariant
                i <= self.entries@.len(),
                content(entries@) == self@.take(i as int),
            decreases self.entries@.len() - i,
        {
            let key: String = self.entries[i].0.clone();
            let value: Json = self.entries[i].1.clone();
            entries.push((key, value));
            assert(content(entries@) == self@.take(i as int).push((key@, value@)));
            i += 1;
        }
        proof {
            assert(self@.take(i as int) == self@);
            assert((JsonMap { entries })@ == content(entries@));
        }
        let r = JsonMap { entries };
        r
    }
}

impl Clone for Json {
    fn clone(&self) -> (r: Json)
        ensures
            r@ == self@,
        decreases self,
    {
        match self {
            Json::Null => Json::Null,
            Json::Bool(b) => Json::Bool(*b),
            Json::Unsigned(n) => Json::Unsigned(*n),
            Json::Signed(n) => Json::Signed(*n),
            Json::Float(x) => Json::Float(x.clone()),
            Json::Text(s) => Json::Text(s.clone()),
            Json::Array(items) => {
                let mut copies: Vec<Json> = Vec::new();
                let mut i: usize = 0;
                while i < items.len()
                    invariant
                        i <= items@.len(),
                        trees(copies@) == trees(items@).take(i as int),
                        decreases_to!(self => items),
                    decreases items@.len() - i,
                {
                    let copy: Json = items[i].clone();
                    copies.push(copy);
                    assert(trees(copies@) == trees(items@).take(i as int).push(copy@));
                    i += 1;
                }
                assert(trees(items@).take(i as int) == trees(items@));
                Json::array(copies)
            },
            Json::Object(map) => Json::Object(map.clone()),
        }
    }
}

/// What a `serde_json::Value` holds.
pub uninterp spec fn value_tree(value: serde_json::Value) -> Tree;

/// What `serde_json::from_slice` makes of `bytes`: what it reads, where they are JSON that it
/// accepts, and else the text of its error.
pub uninterp spec fn json_parsed(bytes: Seq<u8>) -> Result<Tree, Seq<char>>;

/// Whether `bytes` are JSON that is read as `tree`.
pub open spec fn parses_to(bytes: Seq<u8>, tree: Tree) -> bool {
    json_parsed(bytes) matches Ok(t) && t == tree
}

/// What `bytes` are read as, where they are JSON.
pub open spec fn parsed(bytes: Seq<u8>) -> Option<Tree> {
    match json_parsed(bytes) {
        Ok(tree) => Some(tree),
        Err(_) => None,
    }
}

/// What `serde_json::to_vec` writes for a value that holds `tree`.
pub uninterp spec fn json_printed(tree: Tree) -> Seq<u8>;

/// How many arrays and objects stand around the innermost value of `tree`.
pub open spec fn depth(tree: Tree) -> nat
    decreases tree, 0nat,
{
    match tree {
        Tree::Array(items) => 1 + items_depth(items),
        Tree::Object(entries) => 1 + entries_depth(entries),
        _ => 0,
    }
}

/// The greatest depth of `items`.
pub open spec fn items_depth(items: Seq<Tree>) -> nat
    decreases items, items.len(),
{
    if items.len() == 0 {
        0
    } else {
        let first = depth(items[0]);
        let rest = items_depth(items.skip(1));
        if first < rest {
            rest
        } else {
            first
        }
    }
}

/// The greatest depth of the values of `entries`.
pub open spec fn entries_depth(entries: Seq<(Seq<char>, Tree)>) -> nat
    decreases entries, entries.len(),
{
    if entries.len() == 0 {
        0
    } else {
        let first = depth(entries[0].1);
        let rest = entries_depth(entries.skip(1));
        if first < rest {
            rest
        } else {
            first
        }
    }
}

/// The key that `serde_json` has for its own use: where it is the first key of an object, the text
/// behind it is read as JSON, and what is read there takes the place of the object.
pub const RAW_KEY: &'static str = "$serde_json::private::RawValue";

/// Whether no object in `tree` has the key that `serde_json` has for its own use.
pub open spec fn raw_free(tree: Tree) -> bool
    decreases tree,
{
    match tree {
        Tree::Array(items) => forall|i: int| 0 <= i < items.len() ==> raw_free(#[trigger] items[i]),
        Tree::Object(entries) => forall|i: int|
            0 <= i < entries.len() ==> (#[trigger] entries[i]).0 != RAW_KEY@ && raw_free(
                entries[i].1,
            ),
        _ => true,
    }
}

/// Whether `a` and `b` differ at most in numbers that are no integers.
pub open spec fn alike(a: Tree, b: Tree) -> bool
    decreases a,
{
    match (a, b) {
        (Tree::Float(_), Tree::Float(_)) => true,
        (Tree::Array(x), Tree::Array(y)) => x.len() == y.len() && forall|i: int|
            0 <= i < x.len() ==> alike(#[trigger] x[i], y[i]),
        (Tree::Object(x), Tree::Object(y)) => x.len() == y.len() && forall|i: int|
            0 <= i < x.len() ==> (#[trigger] x[i]).0 == y[i].0 && alike(x[i].1, y[i].1),
        _ => a == b,
    }
}

/// Whether `bytes`, where they are read at all, are read as `tree`, but for numbers that are no
/// integers.
pub open spec fn reads_alike(bytes: Seq<u8>, tree: Tree) -> bool {
    json_parsed(bytes) matches Ok(t) ==> alike(t, tree)
}

/// Values that are alike have the same texts under the same keys.
pub proof fn alike_texts(a: Tree, b: Tree, key: Seq<char>)
    requires
        alike(a, b),
    ensures
        a.get_text(key) == b.get_text(key),
{
    reveal_with_fuel(alike, 2);
    if let (Tree::Object(x), Tree::Object(y)) = (a, b) {
        assert forall|i: int| 0 <= i < x.len() implies (#[trigger] x[i]).0 == y[i].0
            && x[i].1.text() == y[i].1.text() by {
            assert(alike(x[i].1, y[i].1));
        }
        lemma_lookup_alike(x, y, key);
    }
}

/// Entries with the same keys, and the same texts among their values, have the same texts under
/// the same keys.
proof fn lemma_lookup_alike(
    x: Seq<(Seq<char>, Tree)>,
    y: Seq<(Seq<char>, Tree)>,
    key: Seq<char>,
)
    requires
        x.len() == y.len(),
        forall|i: int|
            0 <= i < x.len() ==> (#[trigger] x[i]).0 == y[i].0 && x[i].1.text() == y[i].1.text(),
    ensures
        Tree::Object(x).get_text(key) == Tree::Object(y).get_text(key),
    decreases x.len(),
{
    if x.len() > 0 {
        assert(x[0].0 == y[0].0);
        let rest_x = x.skip(1);
        let rest_y = y.skip(1);
        assert forall|i: int| 0 <= i < rest_x.len() implies (#[trigger] rest_x[i]).0 == rest_y[i].0
            && rest_x[i].1.text() == rest_y[i].1.text() by {
            assert(rest_x[i] == x[i + 1]);
        }
        lemma_lookup_alike(rest_x, rest_y, key);
    }
}

/// Whether every number in `tree` is an integer, and no object has the key that `serde_json` has
/// for its own use.
pub open spec fn ordinary(tree: Tree) -> bool
    decreases tree,
{
    match tree {
        Tree::Float(_) => false,
        Tree::Array(items) => forall|i: int| 0 <= i < items.len() ==> ordinary(#[trigger] items[i]),
        Tree::Object(entries) => forall|i: int|
            0 <= i < entries.len() ==> (#[trigger] entries[i]).0 != RAW_KEY@ && ordinary(
                entries[i].1,
            ),
        _ => true,
    }
}

/// Whether `tree` is read back from what is written for it: every number is an integer, no object
/// has the key that `serde_json` has for its own use, and at most 127 arrays and objects stand one
/// in another.
pub open spec fn is_plain(tree: Tree) -> bool {
    ordinary(tree) && depth(tree) <= 127
}

/// The greatest depth of entries is at most `n` where that of each value is.
pub proof fn entries_depth_is_greatest(entries: Seq<(Seq<char>, Tree)>, n: nat)
    ensures
        (entries_depth(entries) <= n) == (forall|i: int|
            0 <= i < entries.len() ==> depth((#[trigger] entries[i]).1) <= n),
    decreases entries.len(),
{
    if entries.len() > 0 {
        let rest = entries.skip(1);
        entries_depth_is_greatest(rest, n);
        assert(forall|i: int| 0 <= i < rest.len() ==> #[trigger] rest[i] == entries[i + 1]);
        if forall|i: int| 0 <= i < rest.len() ==> depth((#[trigger] rest[i]).1) <= n {
            assert forall|i: int| 1 <= i < entries.len() implies depth((#[trigger] entries[i]).1)
                <= n by {
                assert(rest[i - 1] == entries[i]);
            }
        }
    }
}

/// The greatest depth of items is at most `n` where that of each item is.
pub proof fn items_depth_is_greatest(items: Seq<Tree>, n: nat)
    ensures
        (items_depth(items) <= n) == (forall|i: int|
            0 <= i < items.len() ==> depth(#[trigger] items[i]) <= n),
    decreases items.len(),
{
    if items.len() > 0 {
        let rest = items.skip(1);
        items_depth_is_greatest(rest, n);
        assert(forall|i: int| 0 <= i < rest.len() ==> #[trigger] rest[i] == items[i + 1]);
        if forall|i: int| 0 <= i < rest.len() ==> depth(#[trigger] rest[i]) <= n {
            assert forall|i: int| 1 <= i < items.len() implies depth(#[trigger] items[i]) <= n by {
                assert(rest[i - 1] == items[i]);
            }
        }
    }
}

/// The parts of an ordinary value are ordinary.
pub proof fn parts_are_ordinary(tree: Tree)
    requires
        ordinary(tree),
    ensures
        tree matches Tree::Object(entries) ==> forall|i: int|
            0 <= i < entries.len() ==> (#[trigger] entries[i]).0 != RAW_KEY@ && ordinary(
                entries[i].1,
            ),
        tree matches Tree::Array(items) ==> forall|i: int|
            0 <= i < items.len() ==> ordinary(#[trigger] items[i]),
{
    reveal_with_fuel(ordinary, 2);
}

/// Each entry after a member was set is that member, or was there before.
proof fn lemma_with_entry_from(
    entries: Seq<(Seq<char>, Tree)>,
    key: Seq<char>,
    value: Tree,
    i: int,
)
    requires
        0 <= i < with_entry(entries, key, value).len(),
    ensures
        with_entry(entries, key, value)[i] == (key, value) || entries.contains(
            with_entry(entries, key, value)[i],
        ),
    decreases entries.len(),
{
    let result = with_entry(entries, key, value);
    if entries.len() == 0 || text::text_less(key, entries[0].0) {
        if i > 0 {
            assert(result[i] == entries[i - 1]);
        }
    } else if entries[0].0 == key {
        if i > 0 {
            assert(result[i] == entries[i]);
        }
    } else if i > 0 {
        let rest = entries.skip(1);
        lemma_with_entry_from(rest, key, value, i - 1);
        assert(result[i] == with_entry(rest, key, value)[i - 1]);
        if rest.contains(result[i]) {
            let k = choose|k: int| 0 <= k < rest.len() && rest[k] == result[i];
            assert(entries[k + 1] == result[i]);
        }
    } else {
        assert(result[0] == entries[0]);
    }
}

/// Setting an ordinary member keeps an object ordinary, and makes it no deeper than it was and the
/// member is.
pub proof fn with_entry_stays_shallow(
    entries: Seq<(Seq<char>, Tree)>,
    key: Seq<char>,
    value: Tree,
    n: nat,
)
    requires
        entries_depth(entries) <= n,
        depth(value) <= n,
        ordinary(Tree::Object(entries)),
        ordinary(value),
        key != RAW_KEY@,
    ensures
        entries_depth(with_entry(entries, key, value)) <= n,
        ordinary(Tree::Object(with_entry(entries, key, value))),
{
    let result = with_entry(entries, key, value);
    entries_depth_is_greatest(entries, n);
    entries_depth_is_greatest(result, n);
    assert forall|i: int| 0 <= i < result.len() implies depth((#[trigger] result[i]).1) <= n
        && ordinary(result[i].1) && result[i].0 != RAW_KEY@ by {
        lemma_with_entry_from(entries, key, value, i);
        if result[i] != (key, value) {
            let k = choose|k: int| 0 <= k < entries.len() && entries[k] == result[i];
            parts_are_ordinary(Tree::Object(entries));
            assert(ordinary(entries[k].1));
        }
    }
}

/// Setting a member brings in no key but its own and those in its value.
pub proof fn with_entry_stays_raw_free(
    entries: Seq<(Seq<char>, Tree)>,
    key: Seq<char>,
    value: Tree,
)
    requires
        raw_free(Tree::Object(entries)),
        raw_free(value),
        key != RAW_KEY@,
    ensures
        raw_free(Tree::Object(with_entry(entries, key, value))),
{
    let result = with_entry(entries, key, value);
    parts_are_raw_free(Tree::Object(entries));
    assert forall|i: int| 0 <= i < result.len() implies (#[trigger] result[i]).0 != RAW_KEY@
        && raw_free(result[i].1) by {
        lemma_with_entry_from(entries, key, value, i);
        if result[i] != (key, value) {
            let k = choose|k: int| 0 <= k < entries.len() && entries[k] == result[i];
            assert(entries[k].0 != RAW_KEY@);
        }
    }
}

/// The parts of a value have no key that the value has not.
pub proof fn parts_are_raw_free(tree: Tree)
    requires
        raw_free(tree),
    ensures
        tree matches Tree::Object(entries) ==> forall|i: int|
            0 <= i < entries.len() ==> (#[trigger] entries[i]).0 != RAW_KEY@ && raw_free(
                entries[i].1,
            ),
        tree matches Tree::Array(items) ==> forall|i: int|
            0 <= i < items.len() ==> raw_free(#[trigger] items[i]),
{
    reveal_with_fuel(raw_free, 2);
}

/// A member has no key that the object has not.
pub proof fn member_is_raw_free(entries: Seq<(Seq<char>, Tree)>, key: Seq<char>)
    requires
        raw_free(Tree::Object(entries)),
    ensures
        lookup(entries, key) matches Some(value) ==> raw_free(value),
    decreases entries.len(),
{
    if entries.len() > 0 {
        parts_are_raw_free(Tree::Object(entries));
        assert(entries[0].0 != RAW_KEY@);
        let rest = entries.skip(1);
        assert forall|i: int| 0 <= i < rest.len() implies (#[trigger] rest[i]).0 != RAW_KEY@
            && raw_free(rest[i].1) by {
            assert(rest[i] == entries[i + 1]);
        }
        member_is_raw_free(rest, key);
    }
}

/// A member of an ordinary object is ordinary, and no deeper than the deepest.
pub proof fn member_stays_shallow(entries: Seq<(Seq<char>, Tree)>, key: Seq<char>, n: nat)
    requires
        entries_depth(entries) <= n,
        ordinary(Tree::Object(entries)),
    ensures
        lookup(entries, key) matches Some(value) ==> depth(value) <= n && ordinary(value),
    decreases entries.len(),
{
    if entries.len() > 0 {
        parts_are_ordinary(Tree::Object(entries));
        assert(ordinary(entries[0].1));
        let rest = entries.skip(1);
        assert forall|i: int| 0 <= i < rest.len() implies (#[trigger] rest[i]).0 != RAW_KEY@
            && ordinary(rest[i].1) by {
            assert(rest[i] == entries[i + 1]);
        }
        member_stays_shallow(rest, key, n);
    }
}

/// An object with ordinary members is ordinary, and one level deeper than they are.
pub proof fn object_stays_shallow(pairs: Seq<(Seq<char>, Tree)>, n: nat)
    requires
        forall|i: int|
            0 <= i < pairs.len() ==> depth((#[trigger] pairs[i]).1) <= n && ordinary(pairs[i].1)
                && pairs[i].0 != RAW_KEY@,
    ensures
        depth(object(pairs)) <= n + 1,
        ordinary(object(pairs)),
    decreases pairs.len(),
{
    if pairs.len() > 0 {
        let before = pairs.drop_last();
        assert forall|i: int| 0 <= i < before.len() implies depth((#[trigger] before[i]).1) <= n
            && ordinary(before[i].1) && before[i].0 != RAW_KEY@ by {
            assert(before[i] == pairs[i]);
        }
        object_stays_shallow(before, n);
        assert(depth(pairs[pairs.len() - 1].1) <= n);
        with_entry_stays_shallow(entries_of(before), pairs.last().0, pairs.last().1, n);
    }
}

/// One level of a `serde_json::Value`.
enum Node {
    Null,
    Bool(bool),
    Unsigned(u64),
    Signed(i64),
    Float(JsonFloat),
    Text(String),
    Array(Vec<serde_json::Value>),
    Object(Vec<(String, serde_json::Value)>),
}

/// What the items of an array hold.
spec fn value_trees(items: Seq<serde_json::Value>) -> Seq<Tree> {
    Seq::new(items.len(), |i: int| value_tree(items[i]))
}

/// What the members of an object hold.
spec fn member_trees(members: Seq<(String, serde_json::Value)>) -> Seq<(Seq<char>, Tree)> {
    Seq::new(members.len(), |i: int| (members[i].0@, value_tree(members[i].1)))
}

/// What a value with this level at the top holds.
spec fn node_tree(node: Node) -> Tree {
    match node {
        Node::Null => Tree::Null,
        Node::Bool(b) => Tree::Bool(b),
        Node::Unsigned(n) => Tree::Integer(n as int),
        Node::Signed(n) => Tree::Integer(n as int),
        Node::Float(x) => Tree::Float(x),
        Node::Text(s) => Tree::Text(s@),
        Node::Array(items) => Tree::Array(value_trees(items@)),
        Node::Object(members) => Tree::Object(member_trees(members@)),
    }
}

/// The top level of a `serde_json::Value`, by its variant: `Number::as_u64` and `Number::as_i64`
/// tell the integers from the other numbers, and `Map::into_iter` gives the members in the order
/// of their keys, each key once, since the map is a `BTreeMap`.
#[verifier::external_body]
fn open_value(value: serde_json::Value) -> (node: Node)
    ensures
        node_tree(node) == value_tree(value),
        node matches Node::Object(members) ==> ascending(member_trees(members@)),
{
    match value {
        serde_json::Value::Null => Node::Null,
        serde_json::Value::Bool(b) => Node::Bool(b),
        serde_json::Value::Number(number) => match (number.as_u64(), number.as_i64()) {
            (Some(n), _) => Node::Unsigned(n),
            (None, Some(n)) => Node::Signed(n),
            (None, None) => Node::Float(JsonFloat { number }),
        },
        serde_json::Value::String(s) => Node::Text(s),
        serde_json::Value::Array(items) => Node::Array(items),
        serde_json::Value::Object(members) => Node::Object(members.into_iter().collect()),
    }
}

/// The `serde_json::Value` with this level at the top: `Number::from` holds an integer as it is,
/// and `Map::from_iter` holds members with different keys as they are, in the order of keys.
#[verifier::external_body]
fn close_value(node: Node) -> (value: serde_json::Value)
    requires
        node matches Node::Object(members) ==> ascending(member_trees(members@)),
    ensures
        value_tree(value) == node_tree(node),
{
    match node {
        Node::Null => serde_json::Value::Null,
        Node::Bool(b) => serde_json::Value::Bool(b),
        Node::Unsigned(n) => serde_json::Value::Number(n.into()),
        Node::Signed(n) => serde_json::Value::Number(n.into()),
        Node::Float(x) => serde_json::Value::Number(x.number),
        Node::Text(s) => serde_json::Value::String(s),
        Node::Array(items) => serde_json::Value::Array(items),
        Node::Object(members) => serde_json::Value::Object(members.into_iter().collect()),
    }
}

/// `serde_json::from_slice` to a `Value`: whether it accepts the bytes, what it reads and the text
/// of its error are determined by the bytes.
#[verifier::external_body]
fn parse_value(bytes: &[u8]) -> (r: Result<serde_json::Value, String>)
    ensures
        match r {
            Ok(value) => parses_to(bytes@, value_tree(value)),
            Err(error) => json_parsed(bytes@) matches Err(e) && e == error@,
        },
{
    serde_json::from_slice(bytes).map_err(|error: serde_json::Error| error.to_string())
}

/// `serde_json::to_vec` of a `Value`: it does not fail, and what it writes is determined by what the
/// value holds. `serde_json::from_slice` reads that back where every number is an integer, no object
/// has the key that `serde_json` has for its own use, and the reader's limit of nesting is kept.
/// Where only that key is missing, it reads nothing, or a value that differs at most in numbers that
/// are no integers: such a number is written with a point or an exponent and read as such a number
/// again, maybe with another last digit, or refused where it comes out too large. What is read back
/// of an object with that key is left unsaid: it may be another value.
#[verifier::external_body]
fn print_value(value: &serde_json::Value) -> (r: Result<Vec<u8>, serde_json::Error>)
    ensures
        r is Ok,
        r->Ok_0@ == json_printed(value_tree(*value)),
        is_plain(value_tree(*value)) ==> parses_to(
            r->Ok_0@,
            value_tree(*value),
        ),
        raw_free(value_tree(*value)) ==> reads_alike(
            r->Ok_0@,
            value_tree(*value),
        ),
{
    serde_json::to_vec(value)
}

/// The value that `value` holds.
fn json_of(value: serde_json::Value) -> (r: Json)
    ensures
        r@ == value_tree(value),
    decreases value_tree(value),
{
    match open_value(value) {
        Node::Null => Json::Null,
        Node::Bool(b) => Json::Bool(b),
        Node::Unsigned(n) => Json::Unsigned(n),
        Node::Signed(n) => Json::Signed(n),
        Node::Float(x) => Json::Float(x),
        Node::Text(s) => Json::Text(s),
        Node::Array(values) => {
            let ghost all = values@;
            let mut items: Vec<Json> = Vec::new();
            for item in it: values
                invariant
                    it.seq() == all,
                    value_tree(value) == Tree::Array(value_trees(all)),
                    trees(items@) == value_trees(all).take(it.index() as int),
            {
                proof {
                    let n = it.index() as int;
                    assert(value_trees(all)[n] == value_tree(all[n]));
                    assert(decreases_to!(value_tree(value) => value_tree(value)->Array_0));
                    assert(decreases_to!(value_trees(all) => value_trees(all)[n]));
                }
                let json: Json = json_of(item);
                items.push(json);
                assert(trees(items@) == value_trees(all).take(it.index() as int).push(json@));
            }
            assert(value_trees(all).take(all.len() as int) == value_trees(all));
            Json::Array(items)
        },
        Node::Object(values) => {
            let ghost all = values@;
            let mut entries: Vec<(String, Json)> = Vec::new();
            for member in it: values
                invariant
                    it.seq() == all,
                    value_tree(value) == Tree::Object(member_trees(all)),
                    content(entries@) == member_trees(all).take(it.index() as int),
            {
                proof {
                    let n = it.index() as int;
                    assert(member_trees(all)[n] == (all[n].0@, value_tree(all[n].1)));
                    assert(decreases_to!(value_tree(value) => value_tree(value)->Object_0));
                    assert(decreases_to!(member_trees(all) => member_trees(all)[n]));
                    assert(decreases_to!(member_trees(all)[n] => member_trees(all)[n].1));
                }
                let key: String = member.0;
                let json: Json = json_of(member.1);
                entries.push((key, json));
                assert(content(entries@) == member_trees(all).take(it.index() as int).push(
                    (key@, json@),
                ));
            }
            proof {
                assert(member_trees(all).take(all.len() as int) == member_trees(all));
                assert((JsonMap { entries })@ == content(entries@));
            }
            let map = JsonMap { entries };
            Json::Object(map)
        },
    }
}

/// The `serde_json::Value` that holds what `json` holds.
fn value_of(json: &Json) -> (r: serde_json::Value)
    ensures
        value_tree(r) == json@,
    decreases json,
{
    match json {
        Json::Null => close_value(Node::Null),
        Json::Bool(b) => close_value(Node::Bool(*b)),
        Json::Unsigned(n) => close_value(Node::Unsigned(*n)),
        Json::Signed(n) => close_value(Node::Signed(*n)),
        Json::Float(x) => close_value(Node::Float(x.clone())),
        Json::Text(s) => close_value(Node::Text(s.clone())),
        Json::Array(items) => {
            let mut values: Vec<serde_json::Value> = Vec::new();
            let mut i: usize = 0;
            while i < items.len()
                invariant
                    i <= items@.len(),
                    value_trees(values@) == trees(items@).take(i as int),
                    decreases_to!(json => items),
                decreases items@.len() - i,
            {
                let value: serde_json::Value = value_of(&items[i]);
                values.push(value);
                assert(value_trees(values@) == trees(items@).take(i as int).push(
                    value_tree(value),
                ));
                i += 1;
            }
            assert(trees(items@).take(i as int) == trees(items@));
            close_value(Node::Array(values))
        },
        Json::Object(map) => {
            proof {
                use_type_invariant(map);
            }
            let mut members: Vec<(String, serde_json::Value)> = Vec::new();
            let mut i: usize = 0;
            while i < map.entries.len()
                invariant
                    i <= map.entries@.len() == map@.len(),
                    member_trees(members@) == map@.take(i as int),
                    decreases_to!(json => map),
                decreases map.entries@.len() - i,
            {
                assert(decreases_to!(map => map.entries));
                let key: String = map.entries[i].0.clone();
                let value: serde_json::Value = value_of(&map.entries[i].1);
                members.push((key, value));
                assert(member_trees(members@) == map@.take(i as int).push(
                    (key@, value_tree(value)),
                ));
                i += 1;
            }
            assert(map@.take(i as int) == map@);
            close_value(Node::Object(members))
        },
    }
}

/// Reads `bytes` as JSON; the error is its text.
pub fn parse_json(bytes: &[u8]) -> (r: Result<Json, String>)
    ensures
        match r {
            Ok(json) => parses_to(bytes@, json@),
            Err(error) => json_parsed(bytes@) matches Err(e) && e == error@,
        },
{
    match parse_value(bytes) {
        Ok(value) => Ok(json_of(value)),
        Err(error) => Err(error),
    }
}

/// Writes `json` as JSON. What it writes is read back as `json` where every number is an integer,
/// no object has the key that `serde_json` has for its own use, and at most 127 arrays and objects
/// stand one in another. Where only that key is missing, it is read back as a value that differs at
/// most in numbers that are no integers, or not at all.
pub fn print_json(json: &Json) -> (r: Vec<u8>)
    ensures
        r@ == json_printed(json@),
        is_plain(json@) ==> parses_to(r@, json@),
        raw_free(json@) ==> reads_alike(r@, json@),
{
    print_value(&value_of(json)).unwrap()
}

/// What a list of members holds.
pub open spec fn pair_trees(pairs: Seq<(&str, Json)>) -> Seq<(Seq<char>, Tree)> {
    Seq::new(pairs.len(), |i: int| (pairs[i].0@, pairs[i].1@))
}

/// The members of an object, each set in turn.
pub fn json_map(pairs: Vec<(&str, Json)>) -> (r: JsonMap)
    ensures
        r@ == entries_of(pair_trees(pairs@)),
{
    let ghost all = pairs@;
    let mut map: JsonMap = JsonMap::new();
    for pair in it: pairs
        invariant
            it.seq() == all,
            map@ == entries_of(pair_trees(all).take(it.index() as int)),
    {
        proof {
            let n = it.index() as int;
            let next = pair_trees(all).take(n + 1);
            assert(next.drop_last() == pair_trees(all).take(n));
            assert(next.last() == (pair.0@, pair.1@));
        }
        map.insert(pair.0.to_owned(), pair.1);
    }
    assert(pair_trees(all).take(all.len() as int) == pair_trees(all));
    map
}

/// The object with the given members.
pub fn json_object(pairs: Vec<(&str, Json)>) -> (r: Json)
    ensures
        r@ == object(pair_trees(pairs@)),
{
    Json::Object(json_map(pairs))
}

} // verus!
