//! A cache of token counts, keyed by content hash and encoding name.

use crate::errors::LintError;
use crate::table::{ascending, Table};
use crate::text::{chars_of, extend_chars, string_of};
use crate::tokenizer::{count_tokens, token_outcome, Encoding};
use sha2::{Digest, Sha256};
use vstd::prelude::*;

verus! {

/// The version of the persisted cache that this library reads and writes.
pub const CACHE_VERSION: u64 = 1;

/// The SHA-256 digest of `data`.
pub uninterp spec fn sha256(data: Seq<u8>) -> Seq<u8>;

/// The digest that `Sha256::digest` gives for `data`: 32 bytes.
#[verifier::external_body]
fn sha256_digest(data: &[u8]) -> (digest: Vec<u8>)
    ensures
        digest@ == sha256(data@),
        digest@.len() == 32,
{
    Sha256::digest(data).to_vec()
}

/// The lower-case hexadecimal digit of `n`.
pub open spec fn hex_digit(n: int) -> char {
    if n == 0 {
        '0'
    } else if n == 1 {
        '1'
    } else if n == 2 {
        '2'
    } else if n == 3 {
        '3'
    } else if n == 4 {
        '4'
    } else if n == 5 {
        '5'
    } else if n == 6 {
        '6'
    } else if n == 7 {
        '7'
    } else if n == 8 {
        '8'
    } else if n == 9 {
        '9'
    } else if n == 10 {
        'a'
    } else if n == 11 {
        'b'
    } else if n == 12 {
        'c'
    } else if n == 13 {
        'd'
    } else if n == 14 {
        'e'
    } else {
        'f'
    }
}

/// The bytes in hexadecimal, two lower-case digits each.
pub open spec fn hex(bytes: Seq<u8>) -> Seq<char>
    decreases bytes.len(),
{
    if bytes.len() == 0 {
        Seq::empty()
    } else {
        hex(bytes.drop_last()).push(hex_digit(bytes.last() as int / 16)).push(
            hex_digit(bytes.last() as int % 16),
        )
    }
}

/// The key under which the count of `text` under `encoding` is cached: the
/// first 16 hexadecimal digits of the SHA-256 digest of the text's UTF-8
/// bytes, a colon, and the encoding's name.
pub open spec fn spec_cache_key(text: Seq<char>, encoding: Seq<char>) -> Seq<char> {
    hex(sha256(vstd::utf8::encode_utf8(text)).take(8)).push(':') + encoding
}

/// Whether `c` is a lower-case hexadecimal digit.
pub open spec fn is_hex_digit(c: char) -> bool {
    exists|n: int| 0 <= n < 16 && c == #[trigger] hex_digit(n)
}

/// Each byte gives two hexadecimal digits.
pub proof fn lemma_hex(bytes: Seq<u8>)
    ensures
        hex(bytes).len() == 2 * bytes.len(),
        forall|i: int| 0 <= i < hex(bytes).len() ==> is_hex_digit(#[trigger] hex(bytes)[i]),
    decreases bytes.len(),
{
    if bytes.len() > 0 {
        let front = hex(bytes.drop_last());
        lemma_hex(bytes.drop_last());
        let high = bytes.last() as int / 16;
        let low = bytes.last() as int % 16;
        assert forall|i: int| 0 <= i < hex(bytes).len() implies is_hex_digit(
            #[trigger] hex(bytes)[i],
        ) by {
            if i < front.len() {
                assert(hex(bytes)[i] == front[i]);
            } else if i == front.len() {
                assert(hex(bytes)[i] == hex_digit(high));
            } else {
                assert(hex(bytes)[i] == hex_digit(low));
            }
        }
    }
}

/// One text has different keys under different encodings.
pub proof fn lemma_key_separates_encodings(text: Seq<char>, a: Seq<char>, b: Seq<char>)
    requires
        a != b,
    ensures
        spec_cache_key(text, a) != spec_cache_key(text, b),
{
    let head = hex(sha256(vstd::utf8::encode_utf8(text)).take(8)).push(':');
    if head + a == head + b {
        assert((head + a).skip(head.len() as int) =~= a);
        assert((head + b).skip(head.len() as int) =~= b);
    }
}

fn hex_digit_of(n: u8) -> (c: char)
    requires
        n < 16,
    ensures
        c == hex_digit(n as int),
{
    if n == 0 {
        '0'
    } else if n == 1 {
        '1'
    } else if n == 2 {
        '2'
    } else if n == 3 {
        '3'
    } else if n == 4 {
        '4'
    } else if n == 5 {
        '5'
    } else if n == 6 {
        '6'
    } else if n == 7 {
        '7'
    } else if n == 8 {
        '8'
    } else if n == 9 {
        '9'
    } else if n == 10 {
        'a'
    } else if n == 11 {
        'b'
    } else if n == 12 {
        'c'
    } else if n == 13 {
        'd'
    } else if n == 14 {
        'e'
    } else {
        'f'
    }
}

/// The key under which the count of `text` under `encoding` is cached: 16
/// hexadecimal digits, a colon, and the encoding's name.
pub fn cache_key(text: &str, encoding: &str) -> (key: String)
    ensures
        key@ == spec_cache_key(text@, encoding@),
        sha256(vstd::utf8::encode_utf8(text@)).len() == 32,
        key@.len() == 17 + encoding@.len(),
        forall|i: int| 0 <= i < 16 ==> is_hex_digit(#[trigger] key@[i]),
        key@[16] == ':',
        key@.skip(17) == encoding@,
{
    let digest = sha256_digest(text.as_bytes());
    let ghost head = digest@.take(8);
    proof {
        lemma_hex(head);
    }
    let mut out: Vec<char> = Vec::new();
    let mut i: usize = 0;
    assert(head.take(0) =~= Seq::<u8>::empty());
    while i < 8
        invariant
            i <= 8,
            digest@.len() == 32,
            head == digest@.take(8),
            out@ == hex(head.take(i as int)),
        decreases 8 - i,
    {
        let byte = digest[i];
        proof {
            assert(head.take(i + 1).drop_last() =~= head.take(i as int));
            assert(head.take(i + 1).last() == byte);
        }
        out.push(hex_digit_of(byte / 16));
        out.push(hex_digit_of(byte % 16));
        i = i + 1;
    }
    assert(head.take(8) =~= head);
    out.push(':');
    let name = chars_of(encoding);
    extend_chars(&mut out, &name);
    proof {
        assert(out@ =~= hex(head).push(':') + encoding@);
        assert forall|i: int| 0 <= i < 16 implies is_hex_digit(#[trigger] out@[i]) by {
            assert(out@[i] == hex(head)[i]);
        }
        assert(out@.skip(17) =~= encoding@);
    }
    string_of(&out)
}

/// Token counts already computed, by cache key. The cache remembers whether
/// a count was added since it was made.
#[derive(Debug)]
pub struct TokenCache {
    entries: Table<usize>,
    dirty: bool,
}

/// What a cache holds.
pub struct CacheState {
    pub counts: Map<Seq<char>, usize>,
    pub dirty: bool,
}

impl CacheState {
    /// The count held under `key`.
    pub open spec fn lookup(self, key: Seq<char>) -> Option<usize> {
        if self.counts.dom().contains(key) {
            Some(self.counts[key])
        } else {
            None
        }
    }
}

/// What a request for a count is answered with.
pub enum Answer {
    /// This many tokens.
    Count { n: nat },
    /// No count is cached and the name names no encoding.
    UnknownEncoding,
    /// No count is cached and the tokenizer fails on the text.
    TokenizerFailure,
}

/// What a request for the count of `text` under the encoding named
/// `encoding` is answered with: the cached count if there is a cache that
/// holds one; else, if the name names an encoding, what the tokenizer gives
/// for the text.
pub open spec fn expected(source: Option<CacheState>, text: Seq<char>, encoding: Seq<char>) -> Answer {
    match cached_count(source, text, encoding) {
        Some(n) => Answer::Count { n: n as nat },
        None => match Encoding::spec_from_name(encoding) {
            Some(e) => match token_outcome(text, e) {
                Some(n) => Answer::Count { n },
                None => Answer::TokenizerFailure,
            },
            None => Answer::UnknownEncoding,
        },
    }
}

/// The count that `source` has cached for `text` under `encoding`.
pub open spec fn cached_count(
    source: Option<CacheState>,
    text: Seq<char>,
    encoding: Seq<char>,
) -> Option<usize> {
    match source {
        Some(state) => state.lookup(spec_cache_key(text, encoding)),
        None => None,
    }
}

/// The cache after a request that was answered with `n`: as before if the
/// count was cached or there is no cache, else with the count added and
/// dirty.
pub open spec fn source_after(
    source: Option<CacheState>,
    text: Seq<char>,
    encoding: Seq<char>,
    n: usize,
) -> Option<CacheState> {
    match source {
        Some(state) => if cached_count(source, text, encoding) is Some {
            source
        } else {
            Some(
                CacheState {
                    counts: state.counts.insert(spec_cache_key(text, encoding), n),
                    dirty: true,
                },
            )
        },
        None => None,
    }
}

/// Whether a request for the count of `text` under `encoding` takes the
/// cache from `before` to `after` and is answered with `r`. A count comes
/// exactly if one is expected, and is that one. An unknown-encoding error
/// comes exactly if that is expected, and carries the name. A tokenizer
/// error comes exactly if the tokenizer is asked and fails on the text. An
/// error changes nothing.
pub open spec fn answered(
    before: Option<CacheState>,
    after: Option<CacheState>,
    text: Seq<char>,
    encoding: Seq<char>,
    r: Result<usize, LintError>,
) -> bool {
    match r {
        Ok(n) => expected(before, text, encoding) == (Answer::Count { n: n as nat }) && after
            == source_after(before, text, encoding, n),
        Err(LintError::UnknownEncoding(name)) => expected(before, text, encoding)
            is UnknownEncoding && name@ == encoding && after == before,
        Err(LintError::Tokenizer(_)) => expected(before, text, encoding) is TokenizerFailure
            && after == before,
        Err(_) => false,
    }
}

/// A request for a count that is cached is answered with that count, whatever
/// the encoding's name and whatever the tokenizer would give.
pub proof fn lemma_cached_count_is_the_answer(
    source: Option<CacheState>,
    text: Seq<char>,
    encoding: Seq<char>,
    n: usize,
)
    requires
        cached_count(source, text, encoding) == Some(n),
    ensures
        expected(source, text, encoding) == (Answer::Count { n: n as nat }),
{
}

/// What the cache holds before a call, `None` if there is no cache.
pub open spec fn state_before(cache: Option<&mut TokenCache>) -> Option<CacheState> {
    match cache {
        Some(c) => Some(c@),
        None => None,
    }
}

impl View for TokenCache {
    type V = CacheState;

    closed spec fn view(&self) -> CacheState {
        CacheState {
            counts: Map::new(
                |key: Seq<char>| self.entries.has(key),
                |key: Seq<char>| self.entries.spec_get(key).unwrap(),
            ),
            dirty: self.dirty,
        }
    }
}

impl TokenCache {
    /// The count cached under `key`.
    pub open spec fn lookup(&self, key: Seq<char>) -> Option<usize> {
        self@.lookup(key)
    }

    /// Whether a count was added since the cache was made.
    pub open spec fn spec_is_dirty(&self) -> bool {
        self@.dirty
    }

    /// The keys of the cache, in ascending order.
    pub closed spec fn keys(&self) -> Seq<Seq<char>> {
        self.entries.names()
    }

    /// A cache as loaded from persisted entries: empty unless `version` is
    /// the one this library writes. Of two entries with one key the later
    /// stays. The cache is not dirty.
    pub open spec fn spec_loaded(&self, version: u64, entries: Seq<(String, usize)>) -> bool {
        &&& !self.spec_is_dirty()
        &&& forall|key: Seq<char>| self.lookup(key) == persisted_count(version, entries, key)
    }

    /// An empty cache.
    pub fn new() -> (cache: Self)
        ensures
            !cache.spec_is_dirty(),
            forall|key: Seq<char>| cache.lookup(key) is None,
            cache.keys().len() == 0,
    {
        let entries: Table<usize> = Table::new();
        assert forall|key: Seq<char>| !entries.has(key) by {
            assert(!entries.names().contains(key));
        }
        TokenCache { entries, dirty: false }
    }

    /// The cache that stands for what was persisted.
    pub fn from_persisted(version: u64, entries: Vec<(String, usize)>) -> (cache: Self)
        ensures
            cache.spec_loaded(version, entries@),
    {
        let mut table: Table<usize> = Table::new();
        assert forall|key: Seq<char>| table.spec_get(key) is None by {
            assert(!table.names().contains(key));
        }
        if version != CACHE_VERSION {
            let cache = TokenCache { entries: table, dirty: false };
            assert forall|key: Seq<char>| cache.lookup(key) is None by {
                assert(cache.entries.spec_get(key) is None);
            }
            return cache;
        }
        let mut i: usize = 0;
        assert(entries@.take(0) =~= Seq::<(String, usize)>::empty());
        while i < entries.len()
            invariant
                i <= entries.len(),
                forall|key: Seq<char>|
                    table.spec_get(key) == count_in(entries@.take(i as int), key),
            decreases entries.len() - i,
        {
            assert(entries@.take(i + 1).drop_last() =~= entries@.take(i as int));
            let key = entries[i].0.clone();
            table.insert(key, entries[i].1);
            i = i + 1;
        }
        assert(entries@.take(entries@.len() as int) =~= entries@);
        let cache = TokenCache { entries: table, dirty: false };
        assert forall|key: Seq<char>| cache.lookup(key) == count_in(entries@, key) by {
            assert(cache.entries.spec_get(key) == count_in(entries@, key));
        }
        cache
    }

    /// Whether a count was added since the cache was made.
    pub fn is_dirty(&self) -> (r: bool)
        ensures
            r == self.spec_is_dirty(),
    {
        self.dirty
    }

    /// Number of cached counts. The keys are in ascending order, and a key
    /// is among them exactly if a count is cached under it.
    pub fn len(&self) -> (n: usize)
        ensures
            n == self.keys().len(),
            ascending(self.keys()),
            forall|key: Seq<char>| self.keys().contains(key) <==> self.lookup(key) is Some,
    {
        let n = self.entries.len();
        assert forall|key: Seq<char>| self.keys().contains(key) <==> self.lookup(key) is Some by {
            assert(self.entries.has(key) <==> self.entries.spec_get(key) is Some);
        }
        n
    }

    /// The count cached under `key`.
    pub fn get(&self, key: &str) -> (r: Option<usize>)
        ensures
            r == self.lookup(key@),
    {
        match self.entries.get(key) {
            Some(n) => Some(*n),
            None => None,
        }
    }

    /// What is to be persisted: every key with its count, in ascending order
    /// of the keys, if a count was added since the cache was made, and
    /// nothing otherwise.
    pub fn to_persist(&self) -> (r: Option<Vec<(String, usize)>>)
        ensures
            r is Some <==> self.spec_is_dirty(),
            r matches Some(list) ==> {
                &&& list@.len() == self.keys().len()
                &&& ascending(self.keys())
                &&& forall|key: Seq<char>|
                    self.keys().contains(key) <==> self.lookup(key) is Some
                &&& forall|i: int|
                    0 <= i < list@.len() ==> (#[trigger] list@[i]).0@ == self.keys()[i]
                        && self.lookup(self.keys()[i]) == Some(list@[i].1)
            },
    {
        if !self.dirty {
            return None;
        }
        let n = self.len();
        let mut list: Vec<(String, usize)> = Vec::new();
        let mut i: usize = 0;
        while i < n
            invariant
                i <= n,
                n == self.entries.names().len(),
                list@.len() == i,
                forall|j: int|
                    0 <= j < i ==> (#[trigger] list@[j]).0@ == self.entries.names()[j]
                        && self.entries.spec_get(self.entries.names()[j]) == Some(list@[j].1),
            decreases n - i,
        {
            let key = self.entries.name_at(i).clone();
            let count = *self.entries.value_at(i);
            list.push((key, count));
            i = i + 1;
        }
        Some(list)
    }

    /// Counts the tokens of `text` under `encoding`. A count that is cached
    /// is returned as it is, and nothing changes. Otherwise the count is
    /// computed and, if that succeeds, cached, which makes the cache dirty.
    pub fn count_tokens(&mut self, text: &str, encoding: &str) -> (r: Result<usize, LintError>)
        ensures
            answered(Some(old(self)@), Some(final(self)@), text@, encoding@, r),
    {
        let key = cache_key(text, encoding);
        match self.entries.get(key.as_str()) {
            Some(n) => {
                return Ok(*n);
            },
            None => {},
        }
        let ghost before = self@;
        match count_tokens(text, encoding) {
            Ok(count) => {
                self.entries.insert(key, count);
                self.dirty = true;
                assert(self@.counts =~= before.counts.insert(key@, count));
                Ok(count)
            },
            Err(e) => Err(e),
        }
    }
}

/// The count that `entries` hold for `key`: that of the last entry with that
/// key.
pub open spec fn count_in(entries: Seq<(String, usize)>, key: Seq<char>) -> Option<usize>
    decreases entries.len(),
{
    if entries.len() == 0 {
        None
    } else if entries.last().0@ == key {
        Some(entries.last().1)
    } else {
        count_in(entries.drop_last(), key)
    }
}

/// The count that a persisted cache of `version` holds for `key`.
pub open spec fn persisted_count(
    version: u64,
    entries: Seq<(String, usize)>,
    key: Seq<char>,
) -> Option<usize> {
    if version == CACHE_VERSION {
        count_in(entries, key)
    } else {
        None
    }
}

/// A count that a request has given is given again by the next request for
/// the same text and encoding, and that request changes nothing.
pub proof fn lemma_second_request_hits(
    first: Option<CacheState>,
    second: Option<CacheState>,
    third: Option<CacheState>,
    text: Seq<char>,
    encoding: Seq<char>,
    a: Result<usize, LintError>,
    b: Result<usize, LintError>,
)
    requires
        first is Some,
        answered(first, second, text, encoding, a),
        answered(second, third, text, encoding, b),
        a is Ok,
    ensures
        b == a,
        third == second,
        cached_count(second, text, encoding) == Some(a->Ok_0),
{
}

/// Whether a request is answered with a count, and with which, depends on
/// the cache, the text and the encoding's name alone: two answers to one
/// request agree on it.
pub proof fn lemma_answers_agree(
    before: Option<CacheState>,
    first: Option<CacheState>,
    second: Option<CacheState>,
    text: Seq<char>,
    encoding: Seq<char>,
    a: Result<usize, LintError>,
    b: Result<usize, LintError>,
)
    requires
        answered(before, first, text, encoding, a),
        answered(before, second, text, encoding, b),
    ensures
        first == second,
        a is Ok <==> b is Ok,
        a is Ok ==> a == b,
        a matches Err(LintError::UnknownEncoding(_)) <==> b matches Err(
            LintError::UnknownEncoding(_),
        ),
{
}

} // verus!
