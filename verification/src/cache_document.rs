//! The cache as a document: what is read from the cache file and what is
//! written to it. The document is a JSON object with the version under `v`
//! and, under `entries`, an object from cache keys to counts.

use crate::cache::{count_in, TokenCache, CACHE_VERSION};
use crate::text::{chars_of, string_of};
use vstd::prelude::*;

verus! {

/// The unsigned integer that the JSON document `text` holds under `key` of
/// its root object. `None` if the text is no JSON, its root no object, the
/// key absent, or the member no unsigned integer of 64 bits.
pub uninterp spec fn json_unsigned(text: Seq<char>, key: Seq<char>) -> Option<u64>;

/// The members of the object that the JSON document `text` holds under
/// `key` of its root object, each with its value if that is an unsigned
/// integer of 64 bits. `None` if the text is no JSON, its root no object,
/// the key absent, or the member no object.
pub uninterp spec fn json_members(text: Seq<char>, key: Seq<char>) -> Option<
    Seq<(Seq<char>, Option<u64>)>,
>;

/// The JSON document, pretty-printed, whose root object holds `version`
/// under `version_key` and under `entries_key` an object with the entries.
/// `None` if it cannot be written.
pub uninterp spec fn json_document(
    version_key: Seq<char>,
    version: u64,
    entries_key: Seq<char>,
    entries: Seq<(Seq<char>, usize)>,
) -> Option<Seq<char>>;

/// The views of the members of an object.
pub open spec fn member_views(members: Option<Vec<(String, Option<u64>)>>) -> Option<
    Seq<(Seq<char>, Option<u64>)>,
> {
    match members {
        Some(list) => Some(list@.map_values(|m: (String, Option<u64>)| (m.0@, m.1))),
        None => None,
    }
}

/// The views of cache entries.
pub open spec fn entry_views(entries: Seq<(String, usize)>) -> Seq<(Seq<char>, usize)> {
    entries.map_values(|e: (String, usize)| (e.0@, e.1))
}

/// The view of an optional string.
pub open spec fn text_view(text: Option<String>) -> Option<Seq<char>> {
    match text {
        Some(t) => Some(t@),
        None => None,
    }
}

/// Parses `text` with `serde_json::from_str` and reads the member `key` of
/// its root object with `Value::as_object`, `Map::get` and `Value::as_u64`.
#[verifier::external_body]
fn unsigned_member(text: &str, key: &str) -> (r: Option<u64>)
    ensures
        r == json_unsigned(text@, key@),
{
    let value: serde_json::Value = serde_json::from_str(text).ok()?;
    value.as_object()?.get(key)?.as_u64()
}

/// Parses `text` with `serde_json::from_str` and lists the members of the
/// object under `key` of its root object, in the order of `Map::iter`, each
/// value read with `Value::as_u64`.
#[verifier::external_body]
fn object_member(text: &str, key: &str) -> (r: Option<Vec<(String, Option<u64>)>>)
    ensures
        member_views(r) == json_members(text@, key@),
{
    let value: serde_json::Value = serde_json::from_str(text).ok()?;
    let members = value.as_object()?.get(key)?.as_object()?;
    Some(members.iter().map(|(k, v)| (k.clone(), v.as_u64())).collect())
}

/// Builds the document as a `serde_json::Value` and writes it with
/// `serde_json::to_string_pretty`.
#[verifier::external_body]
fn render_document(
    version_key: &str,
    version: u64,
    entries_key: &str,
    entries: &Vec<(String, usize)>,
) -> (r: Option<String>)
    ensures
        text_view(r) == json_document(version_key@, version, entries_key@, entry_views(entries@)),
{
    let counts: serde_json::Map<String, serde_json::Value> =
        entries.iter().map(|(k, n)| (k.clone(), serde_json::Value::from(*n))).collect();
    let mut root = serde_json::Map::new();
    root.insert(version_key.to_string(), serde_json::Value::from(version));
    root.insert(entries_key.to_string(), serde_json::Value::Object(counts));
    serde_json::to_string_pretty(&serde_json::Value::Object(root)).ok()
}

/// The key of the version in a cache document.
pub open spec fn version_key() -> Seq<char> {
    "v"@
}

/// The key of the entries in a cache document.
pub open spec fn entries_key() -> Seq<char> {
    "entries"@
}

/// The entries of a list of members, if each member has a count that fits.
pub open spec fn member_counts(members: Seq<(Seq<char>, Option<u64>)>) -> Option<
    Seq<(Seq<char>, usize)>,
>
    decreases members.len(),
{
    if members.len() == 0 {
        Some(Seq::empty())
    } else {
        match (member_counts(members.drop_last()), members.last().1) {
            (Some(front), Some(n)) => if n <= usize::MAX {
                Some(front.push((members.last().0, n as usize)))
            } else {
                None
            },
            _ => None,
        }
    }
}

/// The entries that a cache document holds: those of its entries object,
/// if the document has the version that this library writes and every entry
/// a count. Any other text holds none.
pub open spec fn document_entries(text: Seq<char>) -> Option<Seq<(Seq<char>, usize)>> {
    if json_unsigned(text, version_key()) == Some(CACHE_VERSION) {
        match json_members(text, entries_key()) {
            Some(members) => member_counts(members),
            None => None,
        }
    } else {
        None
    }
}

/// The count that a list of entries holds for `key`: that of the last entry
/// with that key.
pub open spec fn entry_count(entries: Seq<(Seq<char>, usize)>, key: Seq<char>) -> Option<usize>
    decreases entries.len(),
{
    if entries.len() == 0 {
        None
    } else if entries.last().0 == key {
        Some(entries.last().1)
    } else {
        entry_count(entries.drop_last(), key)
    }
}

/// The count that a cache loaded from `content` holds for `key`. A cache
/// loaded from nothing, or from a text that is no cache document of this
/// version, is empty.
pub open spec fn loaded_count(content: Option<Seq<char>>, key: Seq<char>) -> Option<usize> {
    match content {
        Some(text) => match document_entries(text) {
            Some(entries) => entry_count(entries, key),
            None => None,
        },
        None => None,
    }
}

/// The view of an optional string slice.
pub open spec fn content_view(content: Option<&str>) -> Option<Seq<char>> {
    match content {
        Some(text) => Some(text@),
        None => None,
    }
}

fn counts_of(members: &Vec<(String, Option<u64>)>) -> (r: Option<Vec<(String, usize)>>)
    ensures
        match r {
            Some(entries) => member_counts(member_views(Some(*members))->Some_0) == Some(
                entry_views(entries@),
            ),
            None => member_counts(member_views(Some(*members))->Some_0) is None,
        },
{
    let ghost all = member_views(Some(*members))->Some_0;
    let mut entries: Vec<(String, usize)> = Vec::new();
    let mut i: usize = 0;
    assert(all.take(0) =~= Seq::<(Seq<char>, Option<u64>)>::empty());
    assert(entry_views(entries@) =~= Seq::<(Seq<char>, usize)>::empty());
    while i < members.len()
        invariant
            i <= members.len(),
            all == member_views(Some(*members))->Some_0,
            member_counts(all.take(i as int)) == Some(entry_views(entries@)),
        decreases members.len() - i,
    {
        assert(all.take(i + 1).drop_last() =~= all.take(i as int));
        assert(all.take(i + 1).last() == all[i as int]);
        let count = match members[i].1 {
            Some(n) => if n <= usize::MAX as u64 {
                Some(n as usize)
            } else {
                None
            },
            None => None,
        };
        match count {
            Some(n) => {
                let ghost before = entries@;
                let key = members[i].0.clone();
                entries.push((key, n));
                assert(entry_views(entries@) =~= entry_views(before).push((all[i as int].0, n)));
            },
            None => {
                proof {
                    lemma_member_counts_fail(all, i + 1);
                }
                return None;
            },
        }
        i = i + 1;
    }
    assert(all.take(all.len() as int) =~= all);
    Some(entries)
}

/// A list of members of which a front part has an entry without a count
/// has one too.
proof fn lemma_member_counts_fail(members: Seq<(Seq<char>, Option<u64>)>, k: int)
    requires
        0 <= k <= members.len(),
        member_counts(members.take(k)) is None,
    ensures
        member_counts(members) is None,
    decreases members.len() - k,
{
    if k == members.len() {
        assert(members.take(k) =~= members);
    } else {
        let front = members.drop_last();
        assert(front.take(k) =~= members.take(k));
        lemma_member_counts_fail(front, k);
    }
}

/// `entry_count` over views is `count_in` over the entries themselves.
proof fn lemma_entry_count_views(entries: Seq<(String, usize)>, key: Seq<char>)
    ensures
        entry_count(entry_views(entries), key) == count_in(entries, key),
    decreases entries.len(),
{
    if entries.len() > 0 {
        assert(entry_views(entries).drop_last() =~= entry_views(entries.drop_last()));
        lemma_entry_count_views(entries.drop_last(), key);
    }
}

impl TokenCache {
    /// The entries of the cache, in ascending order of the keys.
    pub open spec fn entries(&self) -> Seq<(Seq<char>, usize)> {
        Seq::new(
            self.keys().len(),
            |i: int| (self.keys()[i], self.lookup(self.keys()[i])->Some_0),
        )
    }

    /// The text that is to be written for this cache: the cache document and
    /// a line feed, if a count was added since the cache was made and the
    /// document can be written; nothing otherwise.
    pub open spec fn spec_persisted_text(&self) -> Option<Seq<char>> {
        if self.spec_is_dirty() {
            match json_document(version_key(), CACHE_VERSION, entries_key(), self.entries()) {
                Some(text) => Some(text.push('\n')),
                None => None,
            }
        } else {
            None
        }
    }

    /// The cache that `content` stands for, `content` being what the cache
    /// file holds, or `None` if it could not be read. The cache is not
    /// dirty.
    pub fn load_from(content: Option<&str>) -> (cache: Self)
        ensures
            !cache.spec_is_dirty(),
            forall|key: Seq<char>| cache.lookup(key) == loaded_count(content_view(content), key),
    {
        let text = match content {
            Some(text) => text,
            None => {
                return TokenCache::new();
            },
        };
        match unsigned_member(text, "v") {
            Some(version) => {
                if version != CACHE_VERSION {
                    return TokenCache::new();
                }
            },
            None => {
                return TokenCache::new();
            },
        }
        let members = match object_member(text, "entries") {
            Some(members) => members,
            None => {
                return TokenCache::new();
            },
        };
        match counts_of(&members) {
            Some(entries) => {
                proof {
                    assert forall|key: Seq<char>|
                        entry_count(entry_views(entries@), key) == count_in(entries@, key) by {
                        lemma_entry_count_views(entries@, key);
                    }
                }
                TokenCache::from_persisted(CACHE_VERSION, entries)
            },
            None => TokenCache::new(),
        }
    }

    /// The text that is to be written for this cache, if any.
    pub fn persisted_text(&self) -> (r: Option<String>)
        ensures
            text_view(r) == self.spec_persisted_text(),
    {
        let entries = match self.to_persist() {
            Some(entries) => entries,
            None => {
                return None;
            },
        };
        assert(entry_views(entries@) =~= self.entries());
        match render_document("v", CACHE_VERSION, "entries", &entries) {
            Some(text) => {
                let mut chars = chars_of(text.as_str());
                chars.push('\n');
                Some(string_of(&chars))
            },
            None => None,
        }
    }
}

} // verus!
