//! How the keys of a bucket are spelled in Redis.

use vstd::prelude::*;
use vstd::string::*;
use vstd::utf8::encode_utf8;

use crate::glob::{
    glob_matches, is_special, law_bytes_keep_prefixes, law_literal_matches_prefix,
    law_plain_text_is_its_pattern, literal, literal_text,
};

verus! {

/// Global prefix of every `wasi:keyvalue` entry in Redis.
pub const KEY_PREFIX: &'static str = "wasi_kv";

/// What every Redis key of a bucket starts with: `wasi_kv:{bucket}:`.
pub open spec fn key_prefix(bucket: Seq<char>) -> Seq<char> {
    KEY_PREFIX@ + seq![':'] + bucket + seq![':']
}

/// The Redis key of a user key: `wasi_kv:{bucket}:{key}`.
pub open spec fn encoded_key(bucket: Seq<char>, key: Seq<char>) -> Seq<char> {
    key_prefix(bucket) + key
}

/// The user key that a Redis key stands for in a bucket: what follows the
/// bucket's prefix, or the whole key where it does not start with that prefix.
pub open spec fn stripped_key(bucket: Seq<char>, encoded: Seq<char>) -> Seq<char> {
    if key_prefix(bucket).is_prefix_of(encoded) {
        encoded.skip(key_prefix(bucket).len() as int)
    } else {
        encoded
    }
}

/// The pattern by which the keys of a bucket are listed: its prefix, character for
/// character, then anything.
pub open spec fn listing_pattern(bucket: Seq<char>) -> Seq<char> {
    literal(key_prefix(bucket)).push('*')
}

/// Spells `wasi_kv:{bucket}:`.
fn prefix_text(bucket: &str) -> (text: String)
    ensures
        text@ == key_prefix(bucket@),
{
    proof {
        reveal_strlit(":");
        assert(":"@ =~= seq![':']);
    }
    let mut text = KEY_PREFIX.to_owned();
    text.append(":");
    text.append(bucket);
    text.append(":");
    text
}

/// Gives the Redis key under which `key` of `bucket` is stored.
pub fn encode_key(bucket: &str, key: &str) -> (encoded: String)
    ensures
        encoded@ == encoded_key(bucket@, key@),
{
    let mut encoded = prefix_text(bucket);
    encoded.append(key);
    encoded
}

/// Gives the pattern by which the keys of `bucket` are listed: its prefix, with a
/// backslash before each character that is special in a pattern, then `*`.
pub fn bucket_pattern(bucket: &str) -> (pattern: String)
    ensures
        pattern@ == listing_pattern(bucket@),
{
    proof {
        reveal_strlit("*");
        assert(literal(key_prefix(bucket@)) + "*"@ =~= listing_pattern(bucket@));
    }
    let prefix = prefix_text(bucket);
    let mut pattern = literal_text(prefix.as_str());
    pattern.append("*");
    pattern
}

/// `str::strip_prefix` with a string as its pattern: what follows `prefix` in
/// `text` where `text` starts with it, and `None` where it does not.
#[verifier::external_body]
fn after_prefix<'a>(text: &'a str, prefix: &str) -> (rest: Option<&'a str>)
    ensures
        match rest {
            Some(rest) => text@ == prefix@ + rest@,
            None => !prefix@.is_prefix_of(text@),
        },
{
    text.strip_prefix(prefix)
}

/// Gives the user key of a Redis key of `bucket`. A Redis key that is not one of
/// the bucket's comes back as it is.
pub fn strip_prefix(bucket: &str, encoded: &str) -> (key: String)
    ensures
        key@ == stripped_key(bucket@, encoded@),
{
    let prefix = prefix_text(bucket);
    match after_prefix(encoded, prefix.as_str()) {
        Some(key) => {
            assert(encoded@.skip(prefix@.len() as int) =~= key@);
            key.to_owned()
        },
        None => encoded.to_owned(),
    }
}

/// One of the buckets is spelled as a name within the other: its name, a colon, and
/// more. Only then can the two share a Redis key.
pub open spec fn overlap(bucket1: Seq<char>, bucket2: Seq<char>) -> bool {
    bucket1.push(':').is_prefix_of(bucket2) || bucket2.push(':').is_prefix_of(bucket1)
}

/// Law: a Redis key is `wasi_kv:`, the name of the bucket, a colon, and the user key, with
/// nothing before, between or behind them.
pub proof fn law_key_is_spelled_out(bucket: Seq<char>, key: Seq<char>)
    ensures
        ({
            let encoded = encoded_key(bucket, key);
            let end: int = 8 + bucket.len() as int;
            &&& encoded.len() == end + 1 + key.len()
            &&& encoded.subrange(0, 8) == "wasi_kv:"@
            &&& encoded.subrange(8, end) == bucket
            &&& encoded[end] == ':'
            &&& encoded.skip(end + 1) == key
        }),
        encoded_key(bucket, key) == "wasi_kv:"@ + bucket + seq![':'] + key,
{
    reveal_strlit("wasi_kv");
    reveal_strlit("wasi_kv:");
    let encoded = encoded_key(bucket, key);
    let end: int = 8 + bucket.len() as int;
    assert(encoded.subrange(0, 8) =~= "wasi_kv:"@);
    assert(encoded.subrange(8, end) =~= bucket);
    assert(encoded.skip(end + 1) =~= key);
    assert(encoded =~= "wasi_kv:"@ + bucket + seq![':'] + key);
}

/// Law: a text that is no Redis key of the bucket is its own user key there.
pub proof fn law_foreign_key_is_kept(bucket: Seq<char>, encoded: Seq<char>)
    requires
        forall|key: Seq<char>| encoded != #[trigger] encoded_key(bucket, key),
    ensures
        stripped_key(bucket, encoded) == encoded,
{
    law_prefix_is_the_bucket(bucket, encoded);
}

/// Law: the user key of a Redis key of the bucket is the key it was made from.
pub proof fn law_strip_undoes_encode(bucket: Seq<char>, key: Seq<char>)
    ensures
        stripped_key(bucket, encoded_key(bucket, key)) == key,
{
    let prefix = key_prefix(bucket);
    assert((prefix + key).subrange(0, prefix.len() as int) =~= prefix);
    assert((prefix + key).skip(prefix.len() as int) =~= key);
}

/// Law: within a bucket, two keys share a Redis key only where they are the same.
pub proof fn law_keys_are_distinct(bucket: Seq<char>, key1: Seq<char>, key2: Seq<char>)
    ensures
        encoded_key(bucket, key1) == encoded_key(bucket, key2) <==> key1 == key2,
{
    law_strip_undoes_encode(bucket, key1);
    law_strip_undoes_encode(bucket, key2);
}

/// Law: the Redis keys that start with the bucket's prefix are the Redis keys of the bucket
/// and no others.
pub proof fn law_prefix_is_the_bucket(bucket: Seq<char>, encoded: Seq<char>)
    ensures
        key_prefix(bucket).is_prefix_of(encoded) <==> exists|key: Seq<char>|
            encoded == encoded_key(bucket, key),
        key_prefix(bucket).is_prefix_of(encoded) ==> encoded == encoded_key(
            bucket,
            stripped_key(bucket, encoded),
        ),
{
    let prefix = key_prefix(bucket);
    if prefix.is_prefix_of(encoded) {
        assert(encoded =~= encoded_key(bucket, encoded.skip(prefix.len() as int)));
    }
    if exists|key: Seq<char>| encoded == encoded_key(bucket, key) {
        let key = choose|key: Seq<char>| encoded == encoded_key(bucket, key);
        assert((prefix + key).subrange(0, prefix.len() as int) =~= prefix);
    }
}

/// Law: two buckets never share a Redis key, unless the name of one is that of
/// the other, a colon, and more.
pub proof fn law_buckets_are_isolated(
    bucket1: Seq<char>,
    key1: Seq<char>,
    bucket2: Seq<char>,
    key2: Seq<char>,
)
    requires
        bucket1 != bucket2,
        !overlap(bucket1, bucket2),
    ensures
        encoded_key(bucket1, key1) != encoded_key(bucket2, key2),
{
    if encoded_key(bucket1, key1) == encoded_key(bucket2, key2) {
        if bucket1.len() < bucket2.len() {
            lemma_shared_key_overlaps(bucket1, key1, bucket2, key2);
        } else if bucket2.len() < bucket1.len() {
            lemma_shared_key_overlaps(bucket2, key2, bucket1, key1);
        } else {
            let start: int = KEY_PREFIX@.len() as int + 1;
            let shared = encoded_key(bucket1, key1);
            assert(shared.subrange(start, start + bucket1.len()) =~= bucket1);
            assert(shared.subrange(start, start + bucket2.len()) =~= bucket2);
        }
    }
}

/// A shared Redis key spells the shorter bucket name, then a colon, within the longer.
proof fn lemma_shared_key_overlaps(
    bucket1: Seq<char>,
    key1: Seq<char>,
    bucket2: Seq<char>,
    key2: Seq<char>,
)
    requires
        bucket1.len() < bucket2.len(),
        encoded_key(bucket1, key1) == encoded_key(bucket2, key2),
    ensures
        bucket1.push(':').is_prefix_of(bucket2),
{
    let start: int = KEY_PREFIX@.len() as int + 1;
    let end: int = start + bucket1.len() + 1;
    let shared = encoded_key(bucket1, key1);
    assert(shared.subrange(start, end) =~= bucket1.push(':'));
    assert(shared.subrange(start, end) =~= bucket2.subrange(
        0,
        bucket1.len() as int + 1,
    ));
}

/// Law: where the name of a bucket holds no special character, the bucket's pattern is
/// spelled as the Redis key of a user key `*`.
pub proof fn law_pattern_of_plain_name(bucket: Seq<char>)
    requires
        forall|i: int| 0 <= i < bucket.len() ==> !is_special(#[trigger] bucket[i]),
    ensures
        listing_pattern(bucket) == encoded_key(bucket, seq!['*']),
{
    reveal_strlit("wasi_kv");
    let prefix = key_prefix(bucket);
    let start: int = KEY_PREFIX@.len() as int + 1;
    assert forall|i: int| 0 <= i < prefix.len() implies !is_special(#[trigger] prefix[i]) by {
        if start <= i < start + bucket.len() {
            assert(prefix[i] == bucket[i - start]);
        }
    }
    law_plain_text_is_its_pattern(prefix);
    assert(prefix.push('*') =~= prefix + seq!['*']);
}

/// Law: the pattern of a bucket matches the keys that start with the bucket's prefix, and no
/// others, whatever the characters of its name.
pub proof fn law_pattern_is_the_prefix(bucket: Seq<char>, key: Seq<u8>)
    ensures
        glob_matches(encode_utf8(listing_pattern(bucket)), key) <==> encode_utf8(
            key_prefix(bucket),
        ).is_prefix_of(key),
{
    law_literal_matches_prefix(key_prefix(bucket), key);
}

/// Law: the pattern of a bucket matches the Redis keys of the bucket, and no other text.
pub proof fn law_pattern_is_the_bucket(bucket: Seq<char>, encoded: Seq<char>)
    ensures
        glob_matches(encode_utf8(listing_pattern(bucket)), encode_utf8(encoded))
            <==> key_prefix(bucket).is_prefix_of(encoded),
        glob_matches(encode_utf8(listing_pattern(bucket)), encode_utf8(encoded)) <==> exists|
            key: Seq<char>,
        |
            encoded == encoded_key(bucket, key),
{
    law_pattern_is_the_prefix(bucket, encode_utf8(encoded));
    law_bytes_keep_prefixes(key_prefix(bucket), encoded);
    law_prefix_is_the_bucket(bucket, encoded);
}

/// Law: the pattern of a bucket matches no Redis key of another bucket, unless the name of
/// one is that of the other, a colon, and more.
pub proof fn law_pattern_spares_other_buckets(
    bucket: Seq<char>,
    other_bucket: Seq<char>,
    other: Seq<char>,
)
    requires
        other_bucket != bucket,
        !overlap(bucket, other_bucket),
    ensures
        !glob_matches(
            encode_utf8(listing_pattern(bucket)),
            encode_utf8(encoded_key(other_bucket, other)),
        ),
{
    let encoded = encoded_key(other_bucket, other);
    law_pattern_is_the_bucket(bucket, encoded);
    if exists|key: Seq<char>| encoded == encoded_key(bucket, key) {
        let key = choose|key: Seq<char>| encoded == encoded_key(bucket, key);
        law_buckets_are_isolated(bucket, key, other_bucket, other);
    }
}

/// Law: where a bucket is spelled within another, each of its keys is also a key of
/// that other.
pub proof fn law_nested_buckets_share_keys(bucket: Seq<char>, rest: Seq<char>, key: Seq<char>)
    ensures
        overlap(bucket, bucket.push(':') + rest),
        encoded_key(bucket.push(':') + rest, key) == encoded_key(bucket, rest.push(':') + key),
{
    let nested = bucket.push(':') + rest;
    assert(nested.subrange(0, bucket.len() as int + 1) =~= bucket.push(':'));
    assert(encoded_key(nested, key) =~= encoded_key(bucket, rest.push(':') + key));
}

} // verus!
