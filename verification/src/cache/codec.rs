//! Versioned bounded JSON codecs for cache blobs.
//!
//! A blob is an envelope around a payload: the name of the payload's format, the
//! version of its schema and the payload itself. Values are serialized and
//! deserialized by the caller; the envelope, its size and its structural limits are
//! handled here.

use vstd::prelude::*;
use vstd::string::*;
use vstd::utf8::*;
use crate::cache::fingerprint::append_bytes;
use crate::cache::types::CacheError;
use crate::graph::{facts_valid, validate_file_facts, CodeGraph, FileFacts, FileSubgraph};
use crate::text::{decimal, decimal_text, same_text};

verus! {

/// Maximum accepted encoded cache blob size.
pub const CACHE_BLOB_MAX_BYTES: usize = 16_777_216;

/// Maximum number of elements of one collection.
pub const CACHE_COLLECTION_MAX: usize = 1_000_000;

/// Maximum length of one text, in bytes.
pub const CACHE_STRING_MAX: usize = 1_048_576;

/// Maximum length of the name of a subgraph's owner, in bytes.
pub const CACHE_OWNER_MAX_BYTES: usize = 4096;

/// Version of the payload schema of file facts.
pub const FILE_FACTS_SCHEMA_VERSION: u32 = 1;

/// Version of the payload schema of file subgraphs.
pub const FILE_SUBGRAPH_SCHEMA_VERSION: u32 = 1;

/// Version of the payload schema of code graphs.
pub const CODE_GRAPH_SCHEMA_VERSION: u32 = 1;

/// A JSON value.
pub enum JsonTree {
    Null,
    Bool(bool),
    /// A number, with its value where it is a whole one from zero up that fits.
    Number(Option<u64>),
    Text(Seq<char>),
    Array(Seq<JsonTree>),
    Object(Seq<(Seq<char>, JsonTree)>),
}

/// A JSON value of `serde_json`, reached only through the functions below.
#[verifier::external_type_specification]
#[verifier::external_body]
pub struct ExValue(serde_json::Value);

/// What a value of `serde_json` holds.
pub uninterp spec fn json_tree(v: serde_json::Value) -> JsonTree;

/// What `serde_json` reads from bytes, where they are JSON.
pub uninterp spec fn json_parsed(b: Seq<u8>) -> Option<JsonTree>;

/// The text that opens an envelope, up to the payload.
pub open spec fn envelope_opening(format: Seq<char>, schema: u32) -> Seq<char> {
    "{\"format\":\""@ + format + "\",\"schema\":"@ + decimal(schema as nat) + ",\"payload\":"@
}

/// The byte that closes an envelope.
pub const CLOSING_BRACE: u8 = 125;

/// The bytes of an envelope around a payload that is JSON already.
pub open spec fn framed(format: Seq<char>, schema: u32, payload: Seq<u8>) -> Seq<u8> {
    encode_utf8(envelope_opening(format, schema)) + payload + seq![CLOSING_BRACE]
}

/// The text holds only letters `a` to `z` and hyphens, which JSON writes as they are.
pub open spec fn is_plain(format: Seq<char>) -> bool {
    forall|i: int|
        0 <= i < format.len() ==> ('a' <= #[trigger] format[i] <= 'z' || format[i] == '-')
}

/// The payload as the only element of an array.
pub open spec fn bracketed(payload: Seq<u8>) -> Seq<u8> {
    seq![91u8] + payload + seq![93u8]
}

/// The contents of an envelope.
pub open spec fn envelope_tree(format: Seq<char>, schema: u32, payload: JsonTree) -> JsonTree {
    JsonTree::Object(
        seq![
            ("format"@, JsonTree::Text(format)),
            ("payload"@, payload),
            ("schema"@, JsonTree::Number(Some(schema as u64))),
        ],
    )
}

/// The bytes are an envelope around a payload that reads as the tree, and that can
/// still be read inside one more container.
pub open spec fn frames(
    b: Seq<u8>,
    format: Seq<char>,
    schema: u32,
    payload: Seq<u8>,
    tree: JsonTree,
) -> bool {
    &&& b == framed(format, schema, payload)
    &&& is_plain(format)
    &&& json_parsed(payload) == Some(tree)
    &&& json_parsed(bracketed(payload)) is Some
}

/// `serde_json::from_slice` into a generic value: it succeeds or fails, and gives
/// what it gives, by the bytes alone. An object whose three members are written
/// around a payload reads as those members, listed by their keys, with what the
/// payload reads as. The reader gives up on containers that lie too deep inside one
/// another, so this is claimed of a payload that is read inside an array too.
#[verifier::external_body]
fn parse_json(b: &[u8]) -> (r: Option<serde_json::Value>)
    ensures
        match r {
            Some(v) => json_parsed(b@) == Some(json_tree(v)),
            None => json_parsed(b@) is None,
        },
        forall|format: Seq<char>, schema: u32, payload: Seq<u8>, tree: JsonTree| #[trigger]
            frames(b@, format, schema, payload, tree) ==> r is Some && json_tree(r->0)
                == envelope_tree(format, schema, tree),
{
    serde_json::from_slice(b).ok()
}

/// The contents of the values of an array.
pub open spec fn element_trees(items: Seq<serde_json::Value>) -> Seq<JsonTree> {
    items.map_values(|x: serde_json::Value| json_tree(x))
}

/// `serde_json::Value::as_array` gives the elements of an array, and nothing for any
/// other value.
#[verifier::external_body]
fn array_of(v: &serde_json::Value) -> (r: Option<&Vec<serde_json::Value>>)
    ensures
        match r {
            Some(items) => json_tree(*v) == JsonTree::Array(element_trees(items@)),
            None => !(json_tree(*v) is Array),
        },
{
    v.as_array()
}

/// The keys and the contents of the values of an object.
pub open spec fn member_trees(items: Seq<(&String, &serde_json::Value)>) -> Seq<
    (Seq<char>, JsonTree),
> {
    items.map_values(|x: (&String, &serde_json::Value)| ((*x.0)@, json_tree(*x.1)))
}

/// `serde_json::Value::as_object` gives the members of an object, and nothing for
/// any other value. They are listed in the order of the map.
#[verifier::external_body]
fn members_of(v: &serde_json::Value) -> (r: Option<Vec<(&String, &serde_json::Value)>>)
    ensures
        match r {
            Some(items) => json_tree(*v) == JsonTree::Object(member_trees(items@)),
            None => !(json_tree(*v) is Object),
        },
{
    v.as_object().map(|m| m.iter().collect())
}

/// `serde_json::Value::as_str` gives the text of a string, and nothing for any other
/// value.
#[verifier::external_body]
fn text_of(v: &serde_json::Value) -> (r: Option<&str>)
    ensures
        match r {
            Some(s) => json_tree(*v) == JsonTree::Text(s@),
            None => !(json_tree(*v) is Text),
        },
{
    v.as_str()
}

/// `serde_json::Value::as_u64` gives the value of a number that is a whole one from
/// zero up and fits, and nothing for any other value.
#[verifier::external_body]
fn number_of(v: &serde_json::Value) -> (r: Option<u64>)
    ensures
        match r {
            Some(n) => json_tree(*v) == JsonTree::Number(Some(n)),
            None => !(json_tree(*v) is Number && json_tree(*v)->Number_0 is Some),
        },
{
    v.as_u64()
}

/// No text and no collection in the value is too long.
pub open spec fn within_limits(t: JsonTree) -> bool
    decreases t,
{
    match t {
        JsonTree::Text(s) => encode_utf8(s).len() <= CACHE_STRING_MAX,
        JsonTree::Array(items) => items.len() <= CACHE_COLLECTION_MAX && forall|i: int|
            0 <= i < items.len() ==> within_limits(#[trigger] items[i]),
        JsonTree::Object(items) => items.len() <= CACHE_COLLECTION_MAX && forall|i: int|
            0 <= i < items.len() ==> encode_utf8((#[trigger] items[i]).0).len()
                <= CACHE_STRING_MAX && within_limits(items[i].1),
        _ => true,
    }
}

/// Checks that no text and no collection in the value is too long.
pub fn validate_json_limits(value: &serde_json::Value) -> (r: Result<(), CacheError>)
    ensures
        r is Ok <==> within_limits(json_tree(*value)),
        r matches Err(e) ==> e == CacheError::Limits,
    decreases json_tree(*value),
{
    let ghost tree = json_tree(*value);
    match text_of(value) {
        Some(text) => {
            if text.as_bytes().len() > CACHE_STRING_MAX {
                return Err(CacheError::Limits);
            }
            return Ok(());
        },
        None => {},
    }
    match array_of(value) {
        Some(values) => {
            let ghost trees = element_trees(values@);
            if values.len() > CACHE_COLLECTION_MAX {
                return Err(CacheError::Limits);
            }
            let mut i: usize = 0;
            while i < values.len()
                invariant
                    i <= values.len(),
                    tree == json_tree(*value),
                    trees == element_trees(values@),
                    tree == JsonTree::Array(trees),
                    values@.len() <= CACHE_COLLECTION_MAX,
                    forall|j: int| 0 <= j < i ==> within_limits(#[trigger] trees[j]),
                decreases values.len() - i,
            {
                assert(trees[i as int] == json_tree(values@[i as int]));
                assert(decreases_to!(tree => tree->Array_0[i as int]));
                match validate_json_limits(&values[i]) {
                    Ok(()) => {},
                    Err(e) => {
                        assert(!within_limits(trees[i as int]));
                        return Err(e);
                    },
                }
                i += 1;
            }
            return Ok(());
        },
        None => {},
    }
    match members_of(value) {
        Some(values) => {
            let ghost trees = member_trees(values@);
            if values.len() > CACHE_COLLECTION_MAX {
                return Err(CacheError::Limits);
            }
            let mut i: usize = 0;
            while i < values.len()
                invariant
                    i <= values.len(),
                    tree == json_tree(*value),
                    trees == member_trees(values@),
                    tree == JsonTree::Object(trees),
                    values@.len() <= CACHE_COLLECTION_MAX,
                    forall|j: int|
                        0 <= j < i ==> encode_utf8((#[trigger] trees[j]).0).len()
                            <= CACHE_STRING_MAX && within_limits(trees[j].1),
                decreases values.len() - i,
            {
                let (key, item) = values[i];
                assert(trees[i as int] == (key@, json_tree(*item)));
                assert(decreases_to!(tree => tree->Object_0[i as int].1));
                if key.as_str().as_bytes().len() > CACHE_STRING_MAX {
                    return Err(CacheError::Limits);
                }
                match validate_json_limits(item) {
                    Ok(()) => {},
                    Err(e) => {
                        return Err(e);
                    },
                }
                i += 1;
            }
            return Ok(());
        },
        None => {},
    }
    Ok(())
}

/// Collects bytes up to a limit.
pub struct BoundedWriter {
    bytes: Vec<u8>,
    limit: usize,
    overflowed: bool,
}

impl BoundedWriter {
    /// What was kept.
    pub closed spec fn kept(self) -> Seq<u8> {
        self.bytes@
    }

    /// The most that is kept.
    pub closed spec fn most(self) -> nat {
        self.limit as nat
    }

    /// Something did not fit.
    pub closed spec fn overran(self) -> bool {
        self.overflowed
    }

    /// An empty collection.
    pub fn new(limit: usize) -> (r: Self)
        ensures
            r.kept() == Seq::<u8>::empty(),
            r.most() == limit,
            !r.overran(),
    {
        BoundedWriter { bytes: Vec::new(), limit, overflowed: false }
    }

    /// Adds the bytes; of those that do not fit, it adds what does and says so.
    pub fn write(&mut self, input: &[u8]) -> (fits: bool)
        ensures
            fits == (old(self).kept().len() + input@.len() <= old(self).most() || input@.len() == 0),
            final(self).most() == old(self).most(),
            fits ==> final(self).kept() == old(self).kept() + input@ && final(self).overran() == old(
                self,
            ).overran(),
            !fits ==> final(self).overran() && final(self).kept() == old(self).kept()
                + input@.take(
                if old(self).kept().len() > old(self).most() {
                    0
                } else {
                    old(self).most() - old(self).kept().len()
                },
            ),
    {
        let remaining: usize = if self.limit > self.bytes.len() {
            self.limit - self.bytes.len()
        } else {
            0
        };
        if input.len() > remaining {
            let head = vstd::slice::slice_subrange(input, 0, remaining);
            assert(head@ =~= input@.take(remaining as int));
            append_bytes(&mut self.bytes, head);
            self.overflowed = true;
            return false;
        }
        append_bytes(&mut self.bytes, input);
        true
    }

    /// What was kept.
    pub fn into_bytes(self) -> (r: Vec<u8>)
        ensures
            r@ == self.kept(),
    {
        self.bytes
    }
}

/// Writes an envelope around a payload that is JSON already.
pub fn encode(format: &str, schema: u32, payload: &[u8]) -> (r: Result<Vec<u8>, CacheError>)
    ensures
        match r {
            Ok(blob) => blob@ == framed(format@, schema, payload@) && blob@.len()
                <= CACHE_BLOB_MAX_BYTES,
            Err(e) => e == CacheError::Oversize && framed(format@, schema, payload@).len()
                > CACHE_BLOB_MAX_BYTES,
        },
{
    let mut opening: String = "{\"format\":\"".to_owned();
    opening.append(format);
    opening.append("\",\"schema\":");
    opening.append(decimal_text(schema as u64).as_str());
    opening.append(",\"payload\":");
    assert(opening@ == envelope_opening(format@, schema));
    let head = opening.as_str().as_bytes();
    let ghost whole = framed(format@, schema, payload@);
    assert(head@ == encode_utf8(envelope_opening(format@, schema)));
    let mut writer = BoundedWriter::new(CACHE_BLOB_MAX_BYTES);
    if !writer.write(head) {
        return Err(CacheError::Oversize);
    }
    if !writer.write(payload) {
        return Err(CacheError::Oversize);
    }
    let tail: [u8; 1] = [CLOSING_BRACE];
    if !writer.write(tail.as_slice()) {
        return Err(CacheError::Oversize);
    }
    assert(writer.kept() =~= whole);
    Ok(writer.into_bytes())
}

/// The value of the first member of the name.
pub open spec fn member(items: Seq<(Seq<char>, JsonTree)>, name: Seq<char>) -> Option<JsonTree>
    decreases items.len(),
{
    if items.len() == 0 {
        None
    } else if items[0].0 == name {
        Some(items[0].1)
    } else {
        member(items.skip(1), name)
    }
}

/// The named texts of an envelope and its payload.
pub struct EnvelopeView {
    pub format: Seq<char>,
    pub schema: u32,
    pub payload: JsonTree,
}

/// The envelope made of three values.
pub open spec fn envelope_from(format: JsonTree, schema: JsonTree, payload: JsonTree) -> Option<
    EnvelopeView,
> {
    match (format, schema) {
        (JsonTree::Text(name), JsonTree::Number(Some(n))) => if n <= u32::MAX {
            Some(EnvelopeView { format: name, schema: n as u32, payload })
        } else {
            None
        },
        _ => None,
    }
}

/// The envelope that a value holds: an object with its three members, whatever else
/// it has, or an array of the three values in their order.
pub open spec fn envelope_of(t: JsonTree) -> Option<EnvelopeView> {
    match t {
        JsonTree::Array(items) => if items.len() == 3 {
            envelope_from(items[0], items[1], items[2])
        } else {
            None
        },
        JsonTree::Object(items) => match (
            member(items, "format"@),
            member(items, "schema"@),
            member(items, "payload"@),
        ) {
            (Some(format), Some(schema), Some(payload)) => envelope_from(format, schema, payload),
            _ => None,
        },
        _ => None,
    }
}

/// The value of the first member of the name.
fn find_member<'a>(items: &Vec<(&'a String, &'a serde_json::Value)>, name: &str) -> (r: Option<
    &'a serde_json::Value,
>)
    ensures
        match r {
            Some(v) => member(member_trees(items@), name@) == Some(json_tree(*v)),
            None => member(member_trees(items@), name@) is None,
        },
{
    let ghost all = member_trees(items@);
    assert(all.skip(0) =~= all);
    let mut i: usize = 0;
    while i < items.len()
        invariant
            i <= items.len(),
            all == member_trees(items@),
            member(all, name@) == member(all.skip(i as int), name@),
        decreases items.len() - i,
    {
        let (key, value) = items[i];
        assert(all.skip(i as int)[0] == (key@, json_tree(*value)));
        if same_text(key.as_str(), name) {
            return Some(value);
        }
        assert(all.skip(i as int).skip(1) =~= all.skip(i + 1));
        i += 1;
    }
    None
}

/// Reads an envelope; the payload is still a JSON value.
fn open_envelope<'a>(value: &'a serde_json::Value) -> (r: Option<
    (&'a str, u32, &'a serde_json::Value),
>)
    ensures
        match r {
            Some((format, schema, payload)) => envelope_of(json_tree(*value)) == Some(
                EnvelopeView { format: format@, schema, payload: json_tree(*payload) },
            ),
            None => envelope_of(json_tree(*value)) is None,
        },
{
    let (format, schema, payload): (
        &'a serde_json::Value,
        &'a serde_json::Value,
        &'a serde_json::Value,
    ) = match array_of(value) {
        Some(items) => {
            if items.len() != 3 {
                return None;
            }
            assert(element_trees(items@)[0] == json_tree(items@[0]));
            assert(element_trees(items@)[1] == json_tree(items@[1]));
            assert(element_trees(items@)[2] == json_tree(items@[2]));
            (&items[0], &items[1], &items[2])
        },
        None => match members_of(value) {
            Some(items) => {
                let format = find_member(&items, "format");
                let schema = find_member(&items, "schema");
                let payload = find_member(&items, "payload");
                match (format, schema, payload) {
                    (Some(f), Some(s), Some(p)) => (f, s, p),
                    _ => {
                        return None;
                    },
                }
            },
            None => {
                return None;
            },
        },
    };
    match (text_of(format), number_of(schema)) {
        (Some(name), Some(n)) => if n <= u32::MAX as u64 {
            Some((name, n as u32, payload))
        } else {
            None
        },
        _ => None,
    }
}

/// What reading a blob gives, once the payload was read or was not.
pub open spec fn opened<T>(
    envelope: EnvelopeView,
    format: Seq<char>,
    schema: u32,
    payload: Option<T>,
) -> Result<T, CacheError> {
    match payload {
        None => Err(CacheError::Malformed),
        Some(p) => if envelope.format != format || envelope.schema != schema {
            Err(CacheError::Incompatible)
        } else {
            Ok(p)
        },
    }
}

/// The reader was given a value that holds the tree, and gave the payload.
pub open spec fn read_as<T, F: FnOnce(&serde_json::Value) -> Option<T>>(
    read: F,
    tree: JsonTree,
    payload: Option<T>,
) -> bool {
    exists|v: serde_json::Value|
        #![trigger json_tree(v)]
        json_tree(v) == tree && call_ensures(read, (&v,), payload)
}

/// The result is what the reader made of the payload, or says that it made nothing of
/// it.
pub open spec fn is_read_back<T, F: FnOnce(&serde_json::Value) -> Option<T>>(
    read: F,
    tree: JsonTree,
    result: Result<T, CacheError>,
) -> bool {
    &&& read_as(read, tree, result.ok())
    &&& result is Ok || result == Err::<T, CacheError>(CacheError::Malformed)
}

/// The result is what the blob gives, with the reader deciding over the payload.
pub open spec fn is_decoding<T, F: FnOnce(&serde_json::Value) -> Option<T>>(
    blob: Seq<u8>,
    format: Seq<char>,
    schema: u32,
    read: F,
    result: Result<T, CacheError>,
) -> bool {
    if blob.len() > CACHE_BLOB_MAX_BYTES {
        result == Err::<T, CacheError>(CacheError::Oversize)
    } else {
        match json_parsed(blob) {
            None => result == Err::<T, CacheError>(CacheError::Malformed),
            Some(tree) => if !within_limits(tree) {
                result == Err::<T, CacheError>(CacheError::Limits)
            } else {
                match envelope_of(tree) {
                    None => result == Err::<T, CacheError>(CacheError::Malformed),
                    Some(envelope) => exists|payload: Option<T>| #[trigger]
                        read_as(read, envelope.payload, payload) && result == opened(
                            envelope,
                            format,
                            schema,
                            payload,
                        ),
                }
            },
        }
    }
}

/// An envelope written around a payload is read as that envelope.
proof fn lemma_envelope_reads(format: Seq<char>, schema: u32, tree: JsonTree)
    ensures
        envelope_of(envelope_tree(format, schema, tree)) == Some(
            EnvelopeView { format, schema, payload: tree },
        ),
        within_limits(tree) && encode_utf8(format).len() <= CACHE_STRING_MAX ==> within_limits(
            envelope_tree(format, schema, tree),
        ),
{
    reveal_strlit("format");
    reveal_strlit("payload");
    reveal_strlit("schema");
    let e = envelope_tree(format, schema, tree);
    let items = e->Object_0;
    assert("format"@[0] == 'f' && "payload"@[0] == 'p' && "schema"@[0] == 's');
    reveal_with_fuel(member, 4);
    assert(items.skip(1)[0] == items[1]);
    assert(items.skip(1).skip(1)[0] == items[2]);
    assert(is_ascii_chars("format"@) && is_ascii_chars("payload"@) && is_ascii_chars("schema"@));
    is_ascii_chars_encode_utf8("format"@);
    is_ascii_chars_encode_utf8("payload"@);
    is_ascii_chars_encode_utf8("schema"@);
    if within_limits(tree) && encode_utf8(format).len() <= CACHE_STRING_MAX {
        assert(within_limits(JsonTree::Text(format)));
        assert(within_limits(JsonTree::Number(Some(schema as u64))));
        assert forall|i: int| 0 <= i < items.len() implies encode_utf8(
            (#[trigger] items[i]).0,
        ).len() <= CACHE_STRING_MAX && within_limits(items[i].1) by {
            if i == 0 {
            } else if i == 1 {
            } else {
                assert(i == 2);
            }
        }
    }
}

/// Reads a blob: its envelope is checked here, its payload is read by the caller.
///
/// A payload that was written comes back: when the blob is an envelope of the
/// format and schema around it, whatever the reader makes of the payload is the
/// result.
pub fn decode<T, F: FnOnce(&serde_json::Value) -> Option<T>>(
    format: &str,
    schema: u32,
    blob: &[u8],
    read: F,
) -> (r: Result<T, CacheError>)
    requires
        forall|v: &serde_json::Value| #[trigger] call_requires(read, (v,)),
    ensures
        is_decoding(blob@, format@, schema, read, r),
        forall|payload: Seq<u8>, tree: JsonTree| #[trigger]
            frames(blob@, format@, schema, payload, tree) && within_limits(tree) && blob@.len()
                <= CACHE_BLOB_MAX_BYTES && encode_utf8(format@).len() <= CACHE_STRING_MAX
                ==> is_read_back(read, tree, r),
{
    if blob.len() > CACHE_BLOB_MAX_BYTES {
        return Err(CacheError::Oversize);
    }
    let parsed = parse_json(blob);
    proof {
        assert forall|payload: Seq<u8>, tree: JsonTree| #[trigger]
            frames(blob@, format@, schema, payload, tree) implies envelope_of(
            json_parsed(blob@)->0,
        ) == Some(EnvelopeView { format: format@, schema, payload: tree }) && (within_limits(tree)
            && encode_utf8(format@).len() <= CACHE_STRING_MAX ==> within_limits(
            json_parsed(blob@)->0,
        )) by {
            lemma_envelope_reads(format@, schema, tree);
        }
    }
    let value = match parsed {
        Some(value) => value,
        None => {
            return Err(CacheError::Malformed);
        },
    };
    match validate_json_limits(&value) {
        Ok(()) => {},
        Err(e) => {
            return Err(e);
        },
    }
    let (stored_format, stored_schema, payload) = match open_envelope(&value) {
        Some(envelope) => envelope,
        None => {
            return Err(CacheError::Malformed);
        },
    };
    let ghost envelope = EnvelopeView {
        format: stored_format@,
        schema: stored_schema,
        payload: json_tree(*payload),
    };
    let result = read(payload);
    assert(read_as(read, envelope.payload, result));
    match result {
        Some(p) => {
            if !same_text(stored_format, format) || stored_schema != schema {
                return Err(CacheError::Incompatible);
            }
            Ok(p)
        },
        None => Err(CacheError::Malformed),
    }
}

/// The names of the formats are shorter than any text may be.
proof fn lemma_formats_are_short()
    ensures
        encode_utf8("file-facts"@).len() <= CACHE_STRING_MAX,
        encode_utf8("file-subgraph"@).len() <= CACHE_STRING_MAX,
        encode_utf8("code-graph"@).len() <= CACHE_STRING_MAX,
{
    reveal_strlit("file-facts");
    reveal_strlit("file-subgraph");
    reveal_strlit("code-graph");
    is_ascii_chars_encode_utf8("file-facts"@);
    is_ascii_chars_encode_utf8("file-subgraph"@);
    is_ascii_chars_encode_utf8("code-graph"@);
}

/// Writes file facts that are JSON already.
pub fn encode_file_facts(payload: &[u8]) -> (r: Result<Vec<u8>, CacheError>)
    ensures
        match r {
            Ok(blob) => blob@ == framed("file-facts"@, FILE_FACTS_SCHEMA_VERSION, payload@)
                && blob@.len() <= CACHE_BLOB_MAX_BYTES,
            Err(e) => e == CacheError::Oversize && framed(
                "file-facts"@,
                FILE_FACTS_SCHEMA_VERSION,
                payload@,
            ).len() > CACHE_BLOB_MAX_BYTES,
        },
{
    encode("file-facts", FILE_FACTS_SCHEMA_VERSION, payload)
}

/// Facts that were read are returned when they are valid.
pub open spec fn checked_facts(
    read: Result<FileFacts, CacheError>,
    result: Result<FileFacts, CacheError>,
) -> bool {
    match read {
        Ok(facts) => if facts_valid(facts.symbols@) {
            result == read
        } else {
            result == Err::<FileFacts, CacheError>(CacheError::InvalidFacts)
        },
        Err(e) => result == read,
    }
}

/// Facts that were written come back: what the reader makes of their JSON is the
/// result, where it is valid.
pub open spec fn facts_come_back<F: FnOnce(&serde_json::Value) -> Option<FileFacts>>(
    blob: Seq<u8>,
    read: F,
    result: Result<FileFacts, CacheError>,
) -> bool {
    forall|payload: Seq<u8>, tree: JsonTree| #[trigger]
        frames(blob, "file-facts"@, FILE_FACTS_SCHEMA_VERSION, payload, tree) && within_limits(tree)
            && blob.len() <= CACHE_BLOB_MAX_BYTES ==> exists|facts: Result<FileFacts, CacheError>|
         #[trigger]
            is_read_back(read, tree, facts) && checked_facts(facts, result)
}

/// Reads file facts and validates them.
pub fn decode_file_facts<F: FnOnce(&serde_json::Value) -> Option<FileFacts>>(
    blob: &[u8],
    read: F,
) -> (r: Result<FileFacts, CacheError>)
    requires
        forall|v: &serde_json::Value| #[trigger] call_requires(read, (v,)),
    ensures
        exists|facts: Result<FileFacts, CacheError>| #[trigger]
            is_decoding(blob@, "file-facts"@, FILE_FACTS_SCHEMA_VERSION, read, facts)
                && checked_facts(facts, r),
        facts_come_back(blob@, read, r),
{
    proof {
        lemma_formats_are_short();
    }
    let facts = decode("file-facts", FILE_FACTS_SCHEMA_VERSION, blob, read);
    let ghost decoded = facts;
    assert(is_decoding(blob@, "file-facts"@, FILE_FACTS_SCHEMA_VERSION, read, decoded));
    let result: Result<FileFacts, CacheError> = match facts {
        Ok(facts) => match validate_file_facts(&facts) {
            Ok(()) => Ok(facts),
            Err(_) => Err(CacheError::InvalidFacts),
        },
        Err(e) => Err(e),
    };
    assert(checked_facts(decoded, result));
    result
}

/// Writes a file's subgraph that is JSON already.
pub fn encode_subgraph(payload: &[u8]) -> (r: Result<Vec<u8>, CacheError>)
    ensures
        match r {
            Ok(blob) => blob@ == framed("file-subgraph"@, FILE_SUBGRAPH_SCHEMA_VERSION, payload@)
                && blob@.len() <= CACHE_BLOB_MAX_BYTES,
            Err(e) => e == CacheError::Oversize && framed(
                "file-subgraph"@,
                FILE_SUBGRAPH_SCHEMA_VERSION,
                payload@,
            ).len() > CACHE_BLOB_MAX_BYTES,
        },
{
    encode("file-subgraph", FILE_SUBGRAPH_SCHEMA_VERSION, payload)
}

/// A subgraph that was read is returned when the file owns it.
pub open spec fn owned_subgraph(
    owner: Seq<char>,
    read: Result<FileSubgraph, CacheError>,
    result: Result<FileSubgraph, CacheError>,
) -> bool {
    match read {
        Ok(subgraph) => if subgraph.owner@ == owner {
            result == read
        } else {
            result == Err::<FileSubgraph, CacheError>(CacheError::InvalidSubgraph)
        },
        Err(e) => result == read,
    }
}

/// A subgraph that was written comes back: what the reader makes of its JSON is the
/// result, where the file owns it.
pub open spec fn subgraphs_come_back<F: FnOnce(&serde_json::Value) -> Option<FileSubgraph>>(
    blob: Seq<u8>,
    owner: Seq<char>,
    read: F,
    result: Result<FileSubgraph, CacheError>,
) -> bool {
    forall|payload: Seq<u8>, tree: JsonTree| #[trigger]
        frames(blob, "file-subgraph"@, FILE_SUBGRAPH_SCHEMA_VERSION, payload, tree)
            && within_limits(tree) && blob.len() <= CACHE_BLOB_MAX_BYTES && encode_utf8(owner).len()
            <= CACHE_OWNER_MAX_BYTES ==> exists|subgraph: Result<FileSubgraph, CacheError>|
         #[trigger]
            is_read_back(read, tree, subgraph) && owned_subgraph(owner, subgraph, result)
}

/// Reads the subgraph that a file owns; one of another file is refused.
pub fn restore_subgraph<F: FnOnce(&serde_json::Value) -> Option<FileSubgraph>>(
    blob: &[u8],
    owner: &str,
    read: F,
) -> (r: Result<FileSubgraph, CacheError>)
    requires
        forall|v: &serde_json::Value| #[trigger] call_requires(read, (v,)),
    ensures
        encode_utf8(owner@).len() > CACHE_OWNER_MAX_BYTES ==> r == Err::<FileSubgraph, CacheError>(
            CacheError::Limits,
        ),
        encode_utf8(owner@).len() <= CACHE_OWNER_MAX_BYTES ==> exists|
            subgraph: Result<FileSubgraph, CacheError>,
        | #[trigger]
            is_decoding(blob@, "file-subgraph"@, FILE_SUBGRAPH_SCHEMA_VERSION, read, subgraph)
                && owned_subgraph(owner@, subgraph, r),
        subgraphs_come_back(blob@, owner@, read, r),
{
    proof {
        lemma_formats_are_short();
    }
    if owner.as_bytes().len() > CACHE_OWNER_MAX_BYTES {
        return Err(CacheError::Limits);
    }
    let subgraph = decode("file-subgraph", FILE_SUBGRAPH_SCHEMA_VERSION, blob, read);
    let ghost decoded = subgraph;
    assert(is_decoding(blob@, "file-subgraph"@, FILE_SUBGRAPH_SCHEMA_VERSION, read, decoded));
    let result: Result<FileSubgraph, CacheError> = match subgraph {
        Ok(subgraph) => if same_text(subgraph.owner.as_str(), owner) {
            Ok(subgraph)
        } else {
            Err(CacheError::InvalidSubgraph)
        },
        Err(e) => Err(e),
    };
    assert(owned_subgraph(owner@, decoded, result));
    result
}

/// Writes a code graph that is JSON already.
pub fn encode_graph(payload: &[u8]) -> (r: Result<Vec<u8>, CacheError>)
    ensures
        match r {
            Ok(blob) => blob@ == framed("code-graph"@, CODE_GRAPH_SCHEMA_VERSION, payload@)
                && blob@.len() <= CACHE_BLOB_MAX_BYTES,
            Err(e) => e == CacheError::Oversize && framed(
                "code-graph"@,
                CODE_GRAPH_SCHEMA_VERSION,
                payload@,
            ).len() > CACHE_BLOB_MAX_BYTES,
        },
{
    encode("code-graph", CODE_GRAPH_SCHEMA_VERSION, payload)
}

/// A graph that was read is returned when its collections are not too large.
pub open spec fn bounded_graph(
    read: Result<CodeGraph, CacheError>,
    result: Result<CodeGraph, CacheError>,
) -> bool {
    match read {
        Ok(graph) => if graph.symbols@.len() <= CACHE_COLLECTION_MAX && graph.edges@.len()
            <= CACHE_COLLECTION_MAX {
            result == read
        } else {
            result == Err::<CodeGraph, CacheError>(CacheError::Limits)
        },
        Err(e) => result == read,
    }
}

/// A graph that was written comes back: what the reader makes of its JSON is the result,
/// where it is not too large.
pub open spec fn graphs_come_back<F: FnOnce(&serde_json::Value) -> Option<CodeGraph>>(
    blob: Seq<u8>,
    read: F,
    result: Result<CodeGraph, CacheError>,
) -> bool {
    forall|payload: Seq<u8>, tree: JsonTree| #[trigger]
        frames(blob, "code-graph"@, CODE_GRAPH_SCHEMA_VERSION, payload, tree) && within_limits(tree)
            && blob.len() <= CACHE_BLOB_MAX_BYTES ==> exists|graph: Result<CodeGraph, CacheError>|
         #[trigger]
            is_read_back(read, tree, graph) && bounded_graph(graph, result)
}

/// Reads a code graph.
pub fn decode_graph<F: FnOnce(&serde_json::Value) -> Option<CodeGraph>>(blob: &[u8], read: F) -> (r:
    Result<CodeGraph, CacheError>)
    requires
        forall|v: &serde_json::Value| #[trigger] call_requires(read, (v,)),
    ensures
        exists|graph: Result<CodeGraph, CacheError>| #[trigger]
            is_decoding(blob@, "code-graph"@, CODE_GRAPH_SCHEMA_VERSION, read, graph)
                && bounded_graph(graph, r),
        graphs_come_back(blob@, read, r),
{
    proof {
        lemma_formats_are_short();
    }
    let graph = decode("code-graph", CODE_GRAPH_SCHEMA_VERSION, blob, read);
    let ghost decoded = graph;
    assert(is_decoding(blob@, "code-graph"@, CODE_GRAPH_SCHEMA_VERSION, read, decoded));
    let result: Result<CodeGraph, CacheError> = match graph {
        Ok(graph) => if graph.symbols.len() > CACHE_COLLECTION_MAX || graph.edges.len()
            > CACHE_COLLECTION_MAX {
            Err(CacheError::Limits)
        } else {
            Ok(graph)
        },
        Err(e) => Err(e),
    };
    assert(bounded_graph(decoded, result));
    result
}

/// The reader makes this of the payload, and nothing else.
pub open spec fn reads_only<T, F: FnOnce(&serde_json::Value) -> Option<T>>(
    read: F,
    tree: JsonTree,
    value: T,
) -> bool {
    forall|payload: Option<T>| #[trigger] read_as(read, tree, payload) ==> payload == Some(value)
}

/// A graph that was written is read back as it was: a reader that makes the graph of its
/// JSON gives the graph itself, definitions and relations in their order.
pub proof fn written_graphs_are_read_back<F: FnOnce(&serde_json::Value) -> Option<CodeGraph>>(
    graph: CodeGraph,
    payload: Seq<u8>,
    tree: JsonTree,
    blob: Seq<u8>,
    read: F,
    r: Result<CodeGraph, CacheError>,
)
    requires
        frames(blob, "code-graph"@, CODE_GRAPH_SCHEMA_VERSION, payload, tree),
        blob.len() <= CACHE_BLOB_MAX_BYTES,
        within_limits(tree),
        graph.symbols@.len() <= CACHE_COLLECTION_MAX,
        graph.edges@.len() <= CACHE_COLLECTION_MAX,
        reads_only(read, tree, graph),
        graphs_come_back(blob, read, r),
    ensures
        r == Ok::<CodeGraph, CacheError>(graph),
{
    let found = choose|found: Result<CodeGraph, CacheError>| #[trigger]
        is_read_back(read, tree, found) && bounded_graph(found, r);
    assert(read_as(read, tree, found.ok()));
}

/// Facts that were written are read back as they were, where they are valid.
pub proof fn written_facts_are_read_back<F: FnOnce(&serde_json::Value) -> Option<FileFacts>>(
    facts: FileFacts,
    payload: Seq<u8>,
    tree: JsonTree,
    blob: Seq<u8>,
    read: F,
    r: Result<FileFacts, CacheError>,
)
    requires
        frames(blob, "file-facts"@, FILE_FACTS_SCHEMA_VERSION, payload, tree),
        blob.len() <= CACHE_BLOB_MAX_BYTES,
        within_limits(tree),
        facts_valid(facts.symbols@),
        reads_only(read, tree, facts),
        facts_come_back(blob, read, r),
    ensures
        r == Ok::<FileFacts, CacheError>(facts),
{
    let found = choose|found: Result<FileFacts, CacheError>| #[trigger]
        is_read_back(read, tree, found) && checked_facts(found, r);
    assert(read_as(read, tree, found.ok()));
}

/// A subgraph that was written is read back as it was for the file that owns it.
pub proof fn written_subgraphs_are_read_back<
    F: FnOnce(&serde_json::Value) -> Option<FileSubgraph>,
>(
    subgraph: FileSubgraph,
    payload: Seq<u8>,
    tree: JsonTree,
    blob: Seq<u8>,
    read: F,
    r: Result<FileSubgraph, CacheError>,
)
    requires
        frames(blob, "file-subgraph"@, FILE_SUBGRAPH_SCHEMA_VERSION, payload, tree),
        blob.len() <= CACHE_BLOB_MAX_BYTES,
        within_limits(tree),
        encode_utf8(subgraph.owner@).len() <= CACHE_OWNER_MAX_BYTES,
        reads_only(read, tree, subgraph),
        subgraphs_come_back(blob, subgraph.owner@, read, r),
    ensures
        r == Ok::<FileSubgraph, CacheError>(subgraph),
{
    let found = choose|found: Result<FileSubgraph, CacheError>| #[trigger]
        is_read_back(read, tree, found) && owned_subgraph(subgraph.owner@, found, r);
    assert(read_as(read, tree, found.ok()));
}

} // verus!
