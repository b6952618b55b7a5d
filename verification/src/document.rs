//! JSON documents as the `json` crate holds them, and their mathematical model.
//!
//! The window manager reports its tree as a JSON document. This module keeps
//! the crate's `JsonValue` as the executable representation and gives it a
//! model, [`JsonView`], over which every contract of the layout code is stated.
//! What is said here about the methods of `JsonValue` is believed, not proved.

use json::JsonValue;
use vstd::prelude::*;
use vstd::string::*;

verus! {

/// One entry of an object: a key and the value stored under it.
pub struct Member {
    pub key: Seq<char>,
    pub value: JsonView,
}

/// The mathematical content of a JSON document.
///
/// Objects keep their entries in insertion order. Numbers are kept as the
/// decimal parts the parser read, so no rounding enters the model. A number
/// that is marked as not a number, which no text is parsed to, counts as
/// `Null`: that is how it is written and how every method used here treats it.
pub enum JsonView {
    Null,
    Boolean(bool),
    Number { positive: bool, mantissa: u64, exponent: i16 },
    Text(Seq<char>),
    Array(Seq<JsonView>),
    Object(Seq<Member>),
}

/// The value of the first entry of `entries` stored under `key`, if any.
pub open spec fn lookup(entries: Seq<Member>, key: Seq<char>) -> Option<JsonView>
    decreases entries.len(),
{
    if entries.len() == 0 {
        None
    } else if entries[0].key == key {
        Some(entries[0].value)
    } else {
        lookup(entries.drop_first(), key)
    }
}

/// `entries` with `value` stored under `key`: the first entry under that key
/// is overwritten in place, and where there is none a new entry goes last.
pub open spec fn store(entries: Seq<Member>, key: Seq<char>, value: JsonView) -> Seq<Member>
    decreases entries.len(),
{
    if entries.len() == 0 {
        seq![Member { key, value }]
    } else if entries[0].key == key {
        seq![Member { key, value }] + entries.drop_first()
    } else {
        seq![entries[0]] + store(entries.drop_first(), key, value)
    }
}

impl JsonView {
    /// Whether this is an object with an entry under `key`.
    pub open spec fn has_key(self, key: Seq<char>) -> bool {
        match self {
            JsonView::Object(entries) => lookup(entries, key) is Some,
            _ => false,
        }
    }

    /// The value under `key`; `Null` where this is no object or has no such entry.
    pub open spec fn get(self, key: Seq<char>) -> JsonView {
        match self {
            JsonView::Object(entries) => match lookup(entries, key) {
                Some(value) => value,
                None => JsonView::Null,
            },
            _ => JsonView::Null,
        }
    }

    /// The items of an array, in order; empty for every other kind of value.
    pub open spec fn members(self) -> Seq<JsonView> {
        match self {
            JsonView::Array(items) => items,
            _ => Seq::empty(),
        }
    }

    /// The characters of a string value.
    pub open spec fn as_str(self) -> Option<Seq<char>> {
        match self {
            JsonView::Text(text) => Some(text),
            _ => None,
        }
    }

    /// The value as a `u32`: only a non-negative number written without
    /// exponent and small enough has one.
    pub open spec fn as_u32(self) -> Option<u32> {
        match self {
            JsonView::Number { positive, mantissa, exponent } => if positive && exponent == 0
                && mantissa <= u32::MAX {
                Some(mantissa as u32)
            } else {
                None
            },
            _ => None,
        }
    }

    pub open spec fn is_object(self) -> bool {
        self is Object
    }

    /// Emptiness in the sense of the `json` crate: `null`, `false`, zero, and
    /// the empty string, array and object.
    pub open spec fn is_empty(self) -> bool {
        match self {
            JsonView::Null => true,
            JsonView::Boolean(b) => !b,
            JsonView::Number { mantissa, .. } => mantissa == 0,
            JsonView::Text(text) => text.len() == 0,
            JsonView::Array(items) => items.len() == 0,
            JsonView::Object(entries) => entries.len() == 0,
        }
    }

    /// The number of values in this document, itself included.
    pub open spec fn size(self) -> nat
        decreases self,
    {
        match self {
            JsonView::Array(items) => 1 + sizes(items),
            JsonView::Object(entries) => 1 + entry_sizes(entries),
            _ => 1,
        }
    }
}

/// The sum of the sizes of `items`.
pub open spec fn sizes(items: Seq<JsonView>) -> nat
    decreases items,
{
    if items.len() == 0 {
        0
    } else {
        sizes(items.drop_last()) + items.last().size()
    }
}

/// The sum of the sizes of the values of `entries`.
pub open spec fn entry_sizes(entries: Seq<Member>) -> nat
    decreases entries,
{
    if entries.len() == 0 {
        0
    } else {
        entry_sizes(entries.drop_last()) + entries.last().value.size()
    }
}

/// Every item of an array is smaller than the array.
pub proof fn lemma_member_smaller(items: Seq<JsonView>, i: int)
    requires
        0 <= i < items.len(),
    ensures
        items[i].size() <= sizes(items),
    decreases items.len(),
{
    if i < items.len() - 1 {
        lemma_member_smaller(items.drop_last(), i);
    }
}

/// Every value found by `lookup` is smaller than the entries it was found in.
pub proof fn lemma_lookup_smaller(entries: Seq<Member>, key: Seq<char>)
    requires
        lookup(entries, key) is Some,
    ensures
        lookup(entries, key)->0.size() <= entry_sizes(entries),
    decreases entries.len(),
{
    lemma_entry_sizes_first(entries);
    if entries[0].key != key {
        lemma_lookup_smaller(entries.drop_first(), key);
    }
}

/// `entry_sizes` may be unfolded from the front as well as from the back.
pub proof fn lemma_entry_sizes_first(entries: Seq<Member>)
    requires
        entries.len() > 0,
    ensures
        entry_sizes(entries) == entries[0].value.size() + entry_sizes(entries.drop_first()),
    decreases entries.len(),
{
    if entries.len() == 1 {
        assert(entries.drop_first() =~= entries.drop_last());
    } else {
        lemma_entry_sizes_first(entries.drop_last());
        assert(entries.drop_last().drop_first() =~= entries.drop_first().drop_last());
    }
}

/// What `get` returns is no larger than the value it was taken from.
pub proof fn lemma_get_smaller(node: JsonView, key: Seq<char>)
    ensures
        node.get(key).size() <= node.size(),
{
    match node {
        JsonView::Object(entries) => {
            if lookup(entries, key) is Some {
                lemma_lookup_smaller(entries, key);
            }
        },
        _ => {},
    }
}

/// Looking a key up in two runs of entries, one after the other: the first
/// run decides where it holds the key.
pub proof fn lemma_lookup_add(first: Seq<Member>, second: Seq<Member>, key: Seq<char>)
    ensures
        lookup(first + second, key) == if lookup(first, key) is Some {
            lookup(first, key)
        } else {
            lookup(second, key)
        },
    decreases first.len(),
{
    if first.len() == 0 {
        assert(first + second =~= second);
    } else {
        assert((first + second).drop_first() =~= first.drop_first() + second);
        if first[0].key != key {
            lemma_lookup_add(first.drop_first(), second, key);
        }
    }
}

/// Storing under a key that is not there yet appends an entry.
pub proof fn lemma_store_fresh(entries: Seq<Member>, key: Seq<char>, value: JsonView)
    requires
        lookup(entries, key) is None,
    ensures
        store(entries, key, value) == entries.push(Member { key, value }),
    decreases entries.len(),
{
    if entries.len() == 0 {
        assert(store(entries, key, value) =~= entries.push(Member { key, value }));
    } else {
        lemma_store_fresh(entries.drop_first(), key, value);
        assert(seq![entries[0]] + entries.drop_first().push(Member { key, value })
            =~= entries.push(Member { key, value }));
    }
}

/// The children of a node of the window manager's tree: the items of the
/// array it holds under `nodes`.
pub open spec fn children(node: JsonView) -> Seq<JsonView> {
    node.get("nodes"@).members()
}

/// The children of a node are, taken together, smaller than the node.
pub proof fn lemma_children_smaller(node: JsonView)
    ensures
        sizes(children(node)) < node.size(),
{
    lemma_get_smaller(node, "nodes"@);
}

#[verifier::external_type_specification]
#[verifier::external_body]
pub struct ExJsonValue(JsonValue);

#[verifier::external_type_specification]
#[verifier::external_body]
pub struct ExJsonError(json::Error);

/// The content of a `JsonValue`.
pub uninterp spec fn json_model(value: JsonValue) -> JsonView;

/// The document that `json::parse` reads from a text, if it reads one.
pub uninterp spec fn parsed(text: Seq<char>) -> Option<JsonView>;

/// The text that `JsonValue::dump` writes for a document.
pub uninterp spec fn dumped(document: JsonView) -> Seq<char>;

/// Whether a byte is a decimal digit.
pub open spec fn is_digit_byte(byte: u8) -> bool {
    48 <= byte <= 57
}

/// The length of the run of digits that ends just before position `end`.
pub open spec fn digit_run(bytes: Seq<u8>, end: int) -> nat
    decreases end,
{
    if 0 < end <= bytes.len() && is_digit_byte(bytes[end - 1]) {
        1 + digit_run(bytes, end - 1)
    } else {
        0
    }
}

/// The longest run of digits that a text may hold and still be handed to
/// the parser, which counts the digits of a fraction in sixteen bits.
pub const MAX_DIGIT_RUN: usize = 32767;

/// Whether no run of digits in `bytes` is longer than the parser can count.
pub open spec fn digit_runs_fit(bytes: Seq<u8>) -> bool {
    forall|end: int| 0 <= end <= bytes.len() ==> #[trigger] digit_run(bytes, end) <= MAX_DIGIT_RUN
}

/// Whether no run of digits in a text is longer than the parser can count.
pub fn digit_runs_fit_in(text: &str) -> (fit: bool)
    ensures
        fit == digit_runs_fit(text.spec_bytes()),
{
    let bytes = text.as_bytes();
    let mut run: usize = 0;
    let mut i: usize = 0;
    while i < bytes.len()
        invariant
            i <= bytes.len(),
            bytes@ == text.spec_bytes(),
            run == digit_run(bytes@, i as int),
            run <= MAX_DIGIT_RUN,
            forall|end: int| 0 <= end <= i ==> #[trigger] digit_run(bytes@, end) <= MAX_DIGIT_RUN,
        decreases bytes.len() - i,
    {
        let byte = bytes[i];
        if 48 <= byte && byte <= 57 {
            run = run + 1;
            if run > MAX_DIGIT_RUN {
                assert(digit_run(bytes@, i as int + 1) > MAX_DIGIT_RUN);
                return false;
            }
        } else {
            run = 0;
        }
        i = i + 1;
    }
    true
}

/// `json::parse`: it returns a document exactly for the texts it accepts, and
/// the same text always reads as the same document. The parser counts the
/// digits of a fraction in a sixteen-bit number and does not guard the count,
/// so a text with a longer run of digits is not handed to it.
#[verifier::external_body]
pub(crate) fn parse(text: &str) -> (r: Result<JsonValue, json::Error>)
    requires
        digit_runs_fit(text.spec_bytes()),
    ensures
        r is Ok <==> parsed(text@) is Some,
        r matches Ok(value) ==> parsed(text@) == Some(json_model(value)),
{
    json::parse(text)
}

/// `JsonValue::dump`: the compact text of the document, a function of its
/// content alone.
pub assume_specification[ JsonValue::dump ](value: &JsonValue) -> (text: String)
    ensures
        text@ == dumped(json_model(*value)),
;

/// `JsonValue::new_array`: an array without items.
pub assume_specification[ JsonValue::new_array ]() -> (value: JsonValue)
    ensures
        json_model(value) == JsonView::Array(Seq::empty()),
;

/// `JsonValue::new_object`: an object without entries.
pub assume_specification[ JsonValue::new_object ]() -> (value: JsonValue)
    ensures
        json_model(value) == JsonView::Object(Seq::empty()),
;

/// `JsonValue::has_key`: true for an object that holds the key, false for
/// everything else.
pub assume_specification[ JsonValue::has_key ](value: &JsonValue, key: &str) -> (b: bool)
    ensures
        b == json_model(*value).has_key(key@),
;

/// `JsonValue::is_object`.
pub assume_specification[ JsonValue::is_object ](value: &JsonValue) -> (b: bool)
    ensures
        b == json_model(*value).is_object(),
;

/// `JsonValue::is_empty`.
pub assume_specification[ JsonValue::is_empty ](value: &JsonValue) -> (b: bool)
    ensures
        b == json_model(*value).is_empty(),
;

/// `JsonValue::as_str`: the text of a string value, `None` for other values.
pub assume_specification<'a>[ JsonValue::as_str ](value: &'a JsonValue) -> (r: Option<&'a str>)
    ensures
        r is Some <==> json_model(*value).as_str() is Some,
        r matches Some(text) ==> json_model(*value).as_str() == Some(text@),
;

/// `JsonValue::as_u32`: a number that is non-negative, written without
/// exponent and within range; `None` for everything else.
pub assume_specification[ JsonValue::as_u32 ](value: &JsonValue) -> (r: Option<u32>)
    ensures
        r == json_model(*value).as_u32(),
;

/// Indexing a `JsonValue` by a key: the value stored under it, and a null
/// value where there is none or the receiver is no object.
#[verifier::external_body]
pub(crate) fn get<'a>(value: &'a JsonValue, key: &str) -> (r: &'a JsonValue)
    ensures
        json_model(*r) == json_model(*value).get(key@),
{
    &value[key]
}

/// `JsonValue::members`: the items of an array in order, nothing for other
/// values.
#[verifier::external_body]
pub(crate) fn members<'a>(value: &'a JsonValue) -> (r: Vec<&'a JsonValue>)
    ensures
        r@.len() == json_model(*value).members().len(),
        forall|i: int| 0 <= i < r@.len() ==> json_model(*#[trigger] r@[i]) == json_model(*value).members()[i],
{
    value.members().collect()
}

/// `JsonValue::clone`: a value with the same content.
#[verifier::external_body]
pub(crate) fn duplicate(value: &JsonValue) -> (r: JsonValue)
    ensures
        json_model(r) == json_model(*value),
{
    value.clone()
}

/// `JsonValue::from` on a `String`: a string value with that text.
#[verifier::external_body]
pub(crate) fn text_value(text: String) -> (r: JsonValue)
    ensures
        json_model(r) == JsonView::Text(text@),
{
    JsonValue::from(text)
}

/// `JsonValue::insert`: on an object the value is stored under the key,
/// replacing what was there or going last; on anything else the call fails
/// and changes nothing.
#[verifier::external_body]
pub(crate) fn insert(object: &mut JsonValue, key: &str, value: JsonValue) -> (r: Result<(), json::Error>)
    ensures
        r is Ok <==> json_model(*old(object)) is Object,
        json_model(*old(object)) matches JsonView::Object(entries) ==> json_model(*final(object))
            == JsonView::Object(store(entries, key@, json_model(value))),
        !(json_model(*old(object)) is Object) ==> json_model(*final(object)) == json_model(
            *old(object),
        ),
{
    object.insert(key, value)
}

/// `JsonValue::push`: on an array the value goes last; on anything else the
/// call fails and changes nothing.
#[verifier::external_body]
pub(crate) fn push(array: &mut JsonValue, value: JsonValue) -> (r: Result<(), json::Error>)
    ensures
        r is Ok <==> json_model(*old(array)) is Array,
        json_model(*old(array)) matches JsonView::Array(items) ==> json_model(*final(array))
            == JsonView::Array(items.push(json_model(value))),
        !(json_model(*old(array)) is Array) ==> json_model(*final(array)) == json_model(
            *old(array),
        ),
{
    array.push(value)
}

} // verus!
