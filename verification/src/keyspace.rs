//! What the calls of the library do to the data, end to end.
//!
//! The contracts of the calls say which command is sent and what becomes of its reply. The
//! server between the two is described here, as far as the laws need it: a map
//! from keys to string values, and what its documentation says the commands of
//! the library make of it.

use vstd::prelude::*;
use vstd::utf8::{encode_utf8, encode_utf8_decode_utf8};

use crate::atomics::{as_signed, as_unsigned};
use crate::batch::{encoded_keys, encoded_pairs, paired};
use crate::command::{
    decimal, del_command, exists_command, get_command, incrby_command, mget_command,
    mset_command, pair_args, scan_command, set_command, signed_decimal, text_args,
};
use crate::glob::glob_matches;
use crate::keys::{
    encoded_key, law_buckets_are_isolated, law_keys_are_distinct, law_pattern_is_the_bucket,
    law_prefix_is_the_bucket, law_strip_undoes_encode, listing_pattern, overlap,
};
use crate::store::{
    bucket_name, law_page_gives_the_reply, listed_keys, lists, sent_cursor, KeyResponse, PAGE_COUNT,
};

verus! {

/// The data of a server: the value of each key.
pub type Keyspace = Map<Seq<u8>, Seq<u8>>;

/// The value of a key, if it has one.
pub open spec fn value_at(data: Keyspace, key: Seq<u8>) -> Option<Seq<u8>> {
    if data.contains_key(key) {
        Some(data[key])
    } else {
        None
    }
}

/// The data once each key of a list of alternating keys and values has been set, in order.
pub open spec fn with_pairs(data: Keyspace, args: Seq<Seq<u8>>) -> Keyspace
    decreases args.len(),
{
    if args.len() < 2 {
        data
    } else {
        with_pairs(data, args.take(args.len() - 2)).insert(
            args[args.len() - 2],
            args[args.len() - 1],
        )
    }
}

/// The 64-bit integer that a text spells, if it spells one.
pub open spec fn spelled(text: Seq<u8>) -> Option<i64> {
    if exists|n: i64| signed_decimal(n as int) == text {
        Some(choose|n: i64| signed_decimal(n as int) == text)
    } else {
        None
    }
}

/// The number that a counter stands at: 0 where the key has no value.
pub open spec fn counter(data: Keyspace, key: Seq<u8>) -> Option<i64> {
    match value_at(data, key) {
        Some(text) => spelled(text),
        None => Some(0),
    }
}

/// The number that `INCRBY` replies: the sum, or an error, here `None`, where the value or
/// the delta is no 64-bit integer or the sum would be none.
pub open spec fn incrby_reply(data: Keyspace, command: Seq<Seq<u8>>) -> Option<i64> {
    match (counter(data, command[1]), spelled(command[2])) {
        (Some(n), Some(delta)) => if i64::MIN <= n + delta <= i64::MAX {
            Some((n + delta) as i64)
        } else {
            None
        },
        _ => None,
    }
}

/// The value that `GET` replies.
pub open spec fn get_reply(data: Keyspace, command: Seq<Seq<u8>>) -> Option<Seq<u8>> {
    value_at(data, command[1])
}

/// Whether `EXISTS` of one key counts it.
pub open spec fn exists_reply(data: Keyspace, command: Seq<Seq<u8>>) -> bool {
    data.contains_key(command[1])
}

/// The values that `MGET` replies.
pub open spec fn mget_reply(data: Keyspace, command: Seq<Seq<u8>>) -> Seq<Option<Seq<u8>>> {
    Seq::new((command.len() - 1) as nat, |i: int| value_at(data, command[i + 1]))
}

/// What the server replies to a command.
pub enum Reply {
    /// An error: the command is none that the server knows, has too few or too many
    /// arguments, or cannot be carried out.
    Refused,
    /// `OK`.
    Done,
    /// The value of a key.
    Value(Option<Seq<u8>>),
    /// The values of several keys.
    Values(Seq<Option<Seq<u8>>>),
    /// An integer.
    Number(int),
}

/// The command has this name.
pub open spec fn is_named(command: Seq<Seq<u8>>, name: Seq<char>) -> bool {
    command.len() > 0 && command[0] == encode_utf8(name)
}

/// The reply to a command, other than `SCAN`, whose replies are described further on.
pub open spec fn reply_to(data: Keyspace, command: Seq<Seq<u8>>) -> Reply {
    if is_named(command, "GET"@) && command.len() == 2 {
        Reply::Value(get_reply(data, command))
    } else if is_named(command, "EXISTS"@) && command.len() == 2 {
        Reply::Number(
            if exists_reply(data, command) {
                1
            } else {
                0
            },
        )
    } else if is_named(command, "MGET"@) && command.len() >= 2 {
        Reply::Values(mget_reply(data, command))
    } else if is_named(command, "SET"@) && command.len() == 3 {
        Reply::Done
    } else if is_named(command, "DEL"@) && command.len() >= 2 {
        Reply::Number(command.skip(1).to_set().filter(|k| data.contains_key(k)).len() as int)
    } else if is_named(command, "MSET"@) && command.len() >= 3 && command.len() % 2 == 1 {
        Reply::Done
    } else if is_named(command, "INCRBY"@) && command.len() == 3 {
        match incrby_reply(data, command) {
            Some(sum) => Reply::Number(sum as int),
            None => Reply::Refused,
        }
    } else {
        Reply::Refused
    }
}

/// What `SCAN` replies: the cursor to go on with, and the keys of a page.
pub type ScanReply = (u64, Seq<Seq<char>>);

/// The commands go once round the data: each is a `SCAN` with the same pattern, the first
/// from cursor 0, every other one from the cursor of the reply before, and the
/// last reply, and no other, gives the cursor 0.
pub open spec fn is_full_iteration(
    commands: Seq<Seq<Seq<u8>>>,
    replies: Seq<ScanReply>,
) -> bool {
    &&& commands.len() == replies.len()
    &&& commands.len() > 0
    &&& forall|i: int|
        0 <= i < commands.len() ==> {
            &&& (#[trigger] commands[i])[0] == encode_utf8("SCAN"@)
            &&& commands[i][1] == decimal(
                if i == 0 {
                    0
                } else {
                    replies[i - 1].0 as nat
                },
            )
            &&& commands[i][2] == encode_utf8("MATCH"@)
            &&& commands[i][3] == commands[0][3]
        }
    &&& forall|i: int|
        0 <= i < replies.len() ==> ((#[trigger] replies[i]).0 == 0 <==> i == replies.len() - 1)
}

/// One of the replies holds the key.
pub open spec fn is_replied(replies: Seq<ScanReply>, key: Seq<u8>) -> bool {
    exists|i: int, j: int|
        0 <= i < replies.len() && 0 <= j < replies[i].1.len() && encode_utf8(
            #[trigger] replies[i].1[j],
        ) == key
}

/// The replies to `SCAN`, where the data stays the same meanwhile: once round, they hold
/// the keys of the data that the pattern matches, all of them and no others, in some
/// order and at least once each.
pub open spec fn scan_replies(
    data: Keyspace,
    commands: Seq<Seq<Seq<u8>>>,
    replies: Seq<ScanReply>,
) -> bool {
    is_full_iteration(commands, replies) ==> forall|key: Seq<u8>| #[trigger]
        is_replied(replies, key) <==> data.contains_key(key) && glob_matches(commands[0][3], key)
}

/// The data once a command has been served. A command that is refused changes nothing.
pub open spec fn after(data: Keyspace, command: Seq<Seq<u8>>) -> Keyspace {
    if reply_to(data, command) is Refused {
        data
    } else if is_named(command, "SET"@) {
        data.insert(command[1], command[2])
    } else if is_named(command, "DEL"@) {
        data.remove_keys(command.skip(1).to_set())
    } else if is_named(command, "MSET"@) {
        with_pairs(data, command.skip(1))
    } else if is_named(command, "INCRBY"@) {
        data.insert(command[1], signed_decimal(incrby_reply(data, command)->0 as int))
    } else {
        data
    }
}

/// The value that a list of pairs gives a key: that of the last pair with this key.
pub open spec fn last_value(pairs: Seq<(Seq<char>, Seq<u8>)>, key: Seq<char>) -> Option<Seq<u8>>
    decreases pairs.len(),
{
    if pairs.len() == 0 {
        None
    } else if pairs.last().0 == key {
        Some(pairs.last().1)
    } else {
        last_value(pairs.drop_last(), key)
    }
}

/// Equal texts are the only ones with equal bytes.
proof fn lemma_utf8_is_injective(a: Seq<char>, b: Seq<char>)
    ensures
        encode_utf8(a) == encode_utf8(b) <==> a == b,
{
    encode_utf8_decode_utf8(a);
    encode_utf8_decode_utf8(b);
}

/// The names of the commands have different bytes.
proof fn lemma_names_differ()
    ensures
        encode_utf8("SET"@) != encode_utf8("GET"@),
        encode_utf8("DEL"@) != encode_utf8("GET"@),
        encode_utf8("MGET"@) != encode_utf8("GET"@),
        encode_utf8("MSET"@) != encode_utf8("GET"@),
        encode_utf8("SCAN"@) != encode_utf8("GET"@),
        encode_utf8("EXISTS"@) != encode_utf8("GET"@),
        encode_utf8("INCRBY"@) != encode_utf8("GET"@),
        encode_utf8("DEL"@) != encode_utf8("SET"@),
        encode_utf8("MGET"@) != encode_utf8("SET"@),
        encode_utf8("MSET"@) != encode_utf8("SET"@),
        encode_utf8("SCAN"@) != encode_utf8("SET"@),
        encode_utf8("EXISTS"@) != encode_utf8("SET"@),
        encode_utf8("INCRBY"@) != encode_utf8("SET"@),
        encode_utf8("MGET"@) != encode_utf8("DEL"@),
        encode_utf8("MSET"@) != encode_utf8("DEL"@),
        encode_utf8("SCAN"@) != encode_utf8("DEL"@),
        encode_utf8("EXISTS"@) != encode_utf8("DEL"@),
        encode_utf8("INCRBY"@) != encode_utf8("DEL"@),
        encode_utf8("MSET"@) != encode_utf8("MGET"@),
        encode_utf8("SCAN"@) != encode_utf8("MGET"@),
        encode_utf8("EXISTS"@) != encode_utf8("MGET"@),
        encode_utf8("INCRBY"@) != encode_utf8("MGET"@),
        encode_utf8("SCAN"@) != encode_utf8("MSET"@),
        encode_utf8("EXISTS"@) != encode_utf8("MSET"@),
        encode_utf8("INCRBY"@) != encode_utf8("MSET"@),
        encode_utf8("EXISTS"@) != encode_utf8("SCAN"@),
        encode_utf8("INCRBY"@) != encode_utf8("SCAN"@),
        encode_utf8("INCRBY"@) != encode_utf8("EXISTS"@),
{
    reveal_strlit("GET");
    reveal_strlit("SET");
    reveal_strlit("DEL");
    reveal_strlit("MGET");
    reveal_strlit("MSET");
    reveal_strlit("SCAN");
    reveal_strlit("EXISTS");
    reveal_strlit("INCRBY");
    assert("SET"@[0] != "GET"@[0] && "DEL"@[0] != "GET"@[0] && "DEL"@[0] != "SET"@[0]);
    assert("MSET"@[1] != "MGET"@[1] && "SCAN"@[0] != "MGET"@[0] && "SCAN"@[0] != "MSET"@[0]);
    assert("INCRBY"@[0] != "EXISTS"@[0]);
    lemma_other_name("SET"@);
    lemma_other_name("DEL"@);
    lemma_other_name("MGET"@);
    lemma_other_name("MSET"@);
    lemma_other_name("SCAN"@);
    lemma_other_name("EXISTS"@);
    lemma_other_name("INCRBY"@);
}

/// A text that is none of the names of the commands has other bytes.
proof fn lemma_other_name(name: Seq<char>)
    ensures
        name != "GET"@ ==> encode_utf8(name) != encode_utf8("GET"@),
        name != "SET"@ ==> encode_utf8(name) != encode_utf8("SET"@),
        name != "DEL"@ ==> encode_utf8(name) != encode_utf8("DEL"@),
        name != "MGET"@ ==> encode_utf8(name) != encode_utf8("MGET"@),
        name != "MSET"@ ==> encode_utf8(name) != encode_utf8("MSET"@),
        name != "SCAN"@ ==> encode_utf8(name) != encode_utf8("SCAN"@),
        name != "EXISTS"@ ==> encode_utf8(name) != encode_utf8("EXISTS"@),
        name != "INCRBY"@ ==> encode_utf8(name) != encode_utf8("INCRBY"@),
{
    lemma_utf8_is_injective(name, "GET"@);
    lemma_utf8_is_injective(name, "SET"@);
    lemma_utf8_is_injective(name, "DEL"@);
    lemma_utf8_is_injective(name, "MGET"@);
    lemma_utf8_is_injective(name, "MSET"@);
    lemma_utf8_is_injective(name, "SCAN"@);
    lemma_utf8_is_injective(name, "EXISTS"@);
    lemma_utf8_is_injective(name, "INCRBY"@);
}

/// Law: reading and listing change nothing.
pub proof fn law_reads_change_nothing(
    data: Keyspace,
    bucket: Seq<char>,
    key: Seq<char>,
    keys: Seq<Seq<char>>,
    cursor: u64,
    count: u64,
)
    ensures
        after(data, get_command(encoded_key(bucket, key))) == data,
        after(data, exists_command(encoded_key(bucket, key))) == data,
        after(data, mget_command(encoded_keys(bucket, keys))) == data,
        after(data, scan_command(cursor, listing_pattern(bucket), count)) == data,
{
    lemma_names_differ();
}

/// Law: a key reads as the value that the server has under its Redis key, and exists where
/// there is one.
pub proof fn law_key_reads_as_stored(data: Keyspace, bucket: Seq<char>, key: Seq<char>)
    ensures
        ({
            let k = encoded_key(bucket, key);
            let stored = value_at(data, encode_utf8(k));
            &&& reply_to(data, get_command(k)) == Reply::Value(stored)
            &&& reply_to(data, exists_command(k)) == Reply::Number(
                if stored is Some {
                    1
                } else {
                    0
                },
            )
        }),
{
    lemma_names_differ();
}

/// Law: a key that has been set reads as the value it was set to, and exists.
pub proof fn law_set_is_read_back(
    data: Keyspace,
    bucket: Seq<char>,
    key: Seq<char>,
    value: Seq<u8>,
)
    ensures
        ({
            let k = encoded_key(bucket, key);
            let data_after = after(data, set_command(k, value));
            &&& reply_to(data, set_command(k, value)) == Reply::Done
            &&& reply_to(data_after, get_command(k)) == Reply::Value(Some(value))
            &&& reply_to(data_after, exists_command(k)) == Reply::Number(1)
        }),
{
    lemma_names_differ();
}

/// Law: a key that has been deleted has no value, and does not exist; deleting tells how many
/// keys there were to delete.
pub proof fn law_deleted_is_gone(data: Keyspace, bucket: Seq<char>, key: Seq<char>)
    ensures
        ({
            let k = encoded_key(bucket, key);
            let data_after = after(data, del_command(seq![k]));
            &&& reply_to(data, del_command(seq![k])) == reply_to(data, exists_command(k))
            &&& reply_to(data_after, get_command(k)) == Reply::Value(None)
            &&& reply_to(data_after, exists_command(k)) == Reply::Number(0)
        }),
{
    lemma_names_differ();
    let command = del_command(seq![encoded_key(bucket, key)]);
    let k = encode_utf8(encoded_key(bucket, key));
    let deleted = command.skip(1).to_set();
    assert(command.skip(1) =~= seq![k]);
    assert(command.skip(1)[0] == k);
    assert(deleted =~= Set::<Seq<u8>>::empty().insert(k));
    if data.contains_key(k) {
        assert(deleted.filter(|key| data.contains_key(key)) =~= Set::empty().insert(k));
    } else {
        assert(deleted.filter(|key| data.contains_key(key)) =~= Set::empty());
    }
}

/// Law: a key exists where it reads as a value, and only there.
pub proof fn law_exists_where_read(data: Keyspace, bucket: Seq<char>, key: Seq<char>)
    ensures
        ({
            let k = encoded_key(bucket, key);
            reply_to(data, exists_command(k)) == Reply::Number(1) <==> reply_to(
                data,
                get_command(k),
            ) != Reply::Value(None)
        }),
{
    lemma_names_differ();
}

/// Law: setting, deleting or incrementing a key changes what the server has under the Redis
/// key of that bucket and key, and under no other key of any bucket or of none.
pub proof fn law_only_the_key_changes(
    data: Keyspace,
    bucket: Seq<char>,
    key: Seq<char>,
    value: Seq<u8>,
    delta: u64,
    other: Seq<u8>,
)
    requires
        other != encode_utf8(encoded_key(bucket, key)),
    ensures
        ({
            let k = encoded_key(bucket, key);
            &&& value_at(after(data, set_command(k, value)), other) == value_at(data, other)
            &&& value_at(after(data, del_command(seq![k])), other) == value_at(data, other)
            &&& value_at(after(data, incrby_command(k, as_signed(delta))), other) == value_at(
                data,
                other,
            )
        }),
{
    lemma_distinct_keys_are_kept(data, encoded_key(bucket, key), value, delta, other);
}

/// A command on one Redis key changes no other key.
proof fn lemma_distinct_keys_are_kept(
    data: Keyspace,
    key: Seq<char>,
    value: Seq<u8>,
    delta: u64,
    other: Seq<u8>,
)
    requires
        other != encode_utf8(key),
    ensures
        value_at(after(data, set_command(key, value)), other) == value_at(data, other),
        value_at(after(data, del_command(seq![key])), other) == value_at(data, other),
        value_at(after(data, incrby_command(key, as_signed(delta))), other) == value_at(
            data,
            other,
        ),
{
    lemma_names_differ();
    let command = del_command(seq![key]);
    assert(command.skip(1) =~= seq![encode_utf8(key)]);
    assert(!command.skip(1).to_set().contains(other));
}

/// Law: setting, deleting or incrementing a key of a bucket changes no other key of it.
pub proof fn law_other_keys_are_kept(
    data: Keyspace,
    bucket: Seq<char>,
    key: Seq<char>,
    value: Seq<u8>,
    delta: u64,
    other: Seq<char>,
)
    requires
        other != key,
    ensures
        ({
            let k = encoded_key(bucket, key);
            let read = get_command(encoded_key(bucket, other));
            &&& reply_to(after(data, set_command(k, value)), read) == reply_to(data, read)
            &&& reply_to(after(data, del_command(seq![k])), read) == reply_to(data, read)
            &&& reply_to(after(data, incrby_command(k, as_signed(delta))), read) == reply_to(
                data,
                read,
            )
        }),
{
    lemma_names_differ();
    law_keys_are_distinct(bucket, key, other);
    lemma_utf8_is_injective(encoded_key(bucket, key), encoded_key(bucket, other));
    law_only_the_key_changes(
        data,
        bucket,
        key,
        value,
        delta,
        encode_utf8(encoded_key(bucket, other)),
    );
}

/// Law: setting, deleting or incrementing a key of a bucket changes no key of another
/// bucket, unless the name of one is that of the other, a colon, and more.
pub proof fn law_other_buckets_are_kept(
    data: Keyspace,
    bucket: Seq<char>,
    key: Seq<char>,
    value: Seq<u8>,
    delta: u64,
    other_bucket: Seq<char>,
    other: Seq<char>,
)
    requires
        other_bucket != bucket,
        !overlap(bucket, other_bucket),
    ensures
        ({
            let k = encoded_key(bucket, key);
            let read = get_command(encoded_key(other_bucket, other));
            &&& reply_to(after(data, set_command(k, value)), read) == reply_to(data, read)
            &&& reply_to(after(data, del_command(seq![k])), read) == reply_to(data, read)
            &&& reply_to(after(data, incrby_command(k, as_signed(delta))), read) == reply_to(
                data,
                read,
            )
        }),
{
    lemma_names_differ();
    law_buckets_are_isolated(bucket, key, other_bucket, other);
    lemma_utf8_is_injective(encoded_key(bucket, key), encoded_key(other_bucket, other));
    law_only_the_key_changes(
        data,
        bucket,
        key,
        value,
        delta,
        encode_utf8(encoded_key(other_bucket, other)),
    );
}

/// Law: what is set through an identifier is read back through that identifier, and through
/// no other one, unless one is the other, a colon, and more.
pub proof fn law_identifiers_do_not_mix(
    data: Keyspace,
    identifier: Seq<char>,
    key: Seq<char>,
    value: Seq<u8>,
    other_identifier: Seq<char>,
    other: Seq<char>,
)
    requires
        identifier.len() > 0,
        other_identifier.len() > 0,
        other_identifier != identifier,
        !overlap(identifier, other_identifier),
    ensures
        ({
            let own = encoded_key(bucket_name(identifier), key);
            let foreign = get_command(encoded_key(bucket_name(other_identifier), other));
            let data_after = after(data, set_command(own, value));
            &&& reply_to(data_after, get_command(own)) == Reply::Value(Some(value))
            &&& reply_to(data_after, foreign) == reply_to(data, foreign)
        }),
{
    law_set_is_read_back(data, bucket_name(identifier), key, value);
    law_other_buckets_are_kept(
        data,
        bucket_name(identifier),
        key,
        value,
        0,
        bucket_name(other_identifier),
        other,
    );
}

/// Law: a batch is replied to with the values of its keys, and reads each of them, in order,
/// as a call for that key alone reads it.
pub proof fn law_get_many_reads_each(data: Keyspace, bucket: Seq<char>, keys: Seq<Seq<char>>)
    ensures
        ({
            let reply = reply_to(data, mget_command(encoded_keys(bucket, keys)));
            let values = reply->Values_0;
            &&& keys.len() > 0 ==> reply is Values && values.len() == keys.len()
            &&& paired(keys, values).len() == keys.len()
            &&& forall|i: int|
                #![trigger values[i]]
                #![trigger paired(keys, values)[i]]
                0 <= i < keys.len() ==> {
                    &&& reply_to(data, get_command(encoded_key(bucket, keys[i]))) == Reply::Value(
                        values[i],
                    )
                    &&& paired(keys, values)[i] == match values[i] {
                        Some(value) => Some((keys[i], value)),
                        None => None,
                    }
                }
        }),
{
    lemma_names_differ();
}

/// Law: a batch that sets values leaves each key of the bucket with the value of its last
/// pair, and a key that is in no pair as it was.
pub proof fn law_set_many_is_read_back(
    data: Keyspace,
    bucket: Seq<char>,
    pairs: Seq<(Seq<char>, Seq<u8>)>,
    key: Seq<char>,
)
    ensures
        ({
            let command = mset_command(encoded_pairs(bucket, pairs));
            let read = get_command(encoded_key(bucket, key));
            &&& pairs.len() > 0 ==> reply_to(data, command) == Reply::Done
            &&& reply_to(after(data, command), read) == match last_value(pairs, key) {
                Some(value) => Reply::Value(Some(value)),
                None => reply_to(data, read),
            }
        }),
{
    lemma_names_differ();
    let encoded = encoded_pairs(bucket, pairs);
    assert(mset_command(encoded).skip(1) =~= pair_args(encoded));
    lemma_pairs_are_set(data, encoded, encoded_key(bucket, key));
    lemma_last_value_encoded(bucket, pairs, key);
}

/// Law: a batch that sets values changes what the server has under the Redis keys of the
/// bucket and the keys of its pairs, and under no other key of any bucket or of none.
pub proof fn law_set_many_changes_only_its_keys(
    data: Keyspace,
    bucket: Seq<char>,
    pairs: Seq<(Seq<char>, Seq<u8>)>,
    other: Seq<u8>,
)
    requires
        forall|i: int|
            0 <= i < pairs.len() ==> encode_utf8(encoded_key(bucket, (#[trigger] pairs[i]).0))
                != other,
    ensures
        value_at(after(data, mset_command(encoded_pairs(bucket, pairs))), other) == value_at(
            data,
            other,
        ),
{
    lemma_names_differ();
    let encoded = encoded_pairs(bucket, pairs);
    assert(mset_command(encoded).skip(1) =~= pair_args(encoded));
    assert forall|i: int| 0 <= i < encoded.len() implies encode_utf8((#[trigger] encoded[i]).0)
        != other by {
        assert(encoded[i].0 == encoded_key(bucket, pairs[i].0));
    }
    lemma_unset_keys_are_kept(data, encoded, other);
}

/// Setting pairs changes no key that none of them has.
proof fn lemma_unset_keys_are_kept(
    data: Keyspace,
    pairs: Seq<(Seq<char>, Seq<u8>)>,
    other: Seq<u8>,
)
    requires
        forall|i: int| 0 <= i < pairs.len() ==> encode_utf8((#[trigger] pairs[i]).0) != other,
    ensures
        value_at(with_pairs(data, pair_args(pairs)), other) == value_at(data, other),
    decreases pairs.len(),
{
    if pairs.len() > 0 {
        let args = pair_args(pairs);
        assert(args.take(args.len() - 2) =~= pair_args(pairs.drop_last()));
        assert forall|i: int| 0 <= i < pairs.drop_last().len() implies encode_utf8(
            (#[trigger] pairs.drop_last()[i]).0,
        ) != other by {
            assert(pairs.drop_last()[i] == pairs[i]);
        }
        lemma_unset_keys_are_kept(data, pairs.drop_last(), other);
        assert(encode_utf8(pairs[pairs.len() - 1].0) != other);
    }
}

/// Law: a batch that sets values changes no key of another bucket, unless the name of one
/// is that of the other, a colon, and more.
pub proof fn law_set_many_keeps_other_buckets(
    data: Keyspace,
    bucket: Seq<char>,
    pairs: Seq<(Seq<char>, Seq<u8>)>,
    other_bucket: Seq<char>,
    other: Seq<char>,
)
    requires
        other_bucket != bucket,
        !overlap(bucket, other_bucket),
    ensures
        ({
            let read = get_command(encoded_key(other_bucket, other));
            reply_to(after(data, mset_command(encoded_pairs(bucket, pairs))), read) == reply_to(
                data,
                read,
            )
        }),
{
    lemma_names_differ();
    let encoded = encoded_pairs(bucket, pairs);
    let other_key = encoded_key(other_bucket, other);
    assert(mset_command(encoded).skip(1) =~= pair_args(encoded));
    lemma_pairs_are_set(data, encoded, other_key);
    assert forall|i: int| 0 <= i < encoded.len() implies (#[trigger] encoded[i]).0 != other_key by {
        law_buckets_are_isolated(bucket, pairs[i].0, other_bucket, other);
    }
    lemma_no_value_without_pair(encoded, other_key);
}

/// Setting pairs gives a key the value of its last pair.
proof fn lemma_pairs_are_set(data: Keyspace, pairs: Seq<(Seq<char>, Seq<u8>)>, key: Seq<char>)
    ensures
        value_at(with_pairs(data, pair_args(pairs)), encode_utf8(key)) == match last_value(
            pairs,
            key,
        ) {
            Some(value) => Some(value),
            None => value_at(data, encode_utf8(key)),
        },
    decreases pairs.len(),
{
    if pairs.len() > 0 {
        let args = pair_args(pairs);
        assert(args.take(args.len() - 2) =~= pair_args(pairs.drop_last()));
        lemma_pairs_are_set(data, pairs.drop_last(), key);
        lemma_utf8_is_injective(pairs.last().0, key);
    }
}

/// A key has the same last value among the user keys as its Redis key has among the Redis
/// keys.
proof fn lemma_last_value_encoded(
    bucket: Seq<char>,
    pairs: Seq<(Seq<char>, Seq<u8>)>,
    key: Seq<char>,
)
    ensures
        last_value(encoded_pairs(bucket, pairs), encoded_key(bucket, key)) == last_value(
            pairs,
            key,
        ),
    decreases pairs.len(),
{
    if pairs.len() > 0 {
        let encoded = encoded_pairs(bucket, pairs);
        assert(encoded.drop_last() =~= encoded_pairs(bucket, pairs.drop_last()));
        lemma_last_value_encoded(bucket, pairs.drop_last(), key);
        law_keys_are_distinct(bucket, pairs.last().0, key);
    }
}

/// A key that is in no pair is given no value.
proof fn lemma_no_value_without_pair(pairs: Seq<(Seq<char>, Seq<u8>)>, key: Seq<char>)
    requires
        forall|i: int| 0 <= i < pairs.len() ==> (#[trigger] pairs[i]).0 != key,
    ensures
        last_value(pairs, key) is None,
    decreases pairs.len(),
{
    if pairs.len() > 0 {
        assert forall|i: int| 0 <= i < pairs.drop_last().len() implies (
        #[trigger] pairs.drop_last()[i]).0 != key by {
            assert(pairs.drop_last()[i] == pairs[i]);
        }
        lemma_no_value_without_pair(pairs.drop_last(), key);
    }
}

/// Law: a batch that deletes leaves none of its keys with a value, and every other key of
/// the bucket as it was.
pub proof fn law_deleted_many_are_gone(
    data: Keyspace,
    bucket: Seq<char>,
    keys: Seq<Seq<char>>,
    key: Seq<char>,
)
    ensures
        ({
            let command = del_command(encoded_keys(bucket, keys));
            let read = get_command(encoded_key(bucket, key));
            &&& keys.len() > 0 ==> reply_to(data, command) is Number
            &&& reply_to(after(data, command), read) == if keys.contains(key) {
                Reply::Value(None)
            } else {
                reply_to(data, read)
            }
        }),
{
    lemma_names_differ();
    let encoded = encoded_keys(bucket, keys);
    let args = text_args(encoded);
    let k = encode_utf8(encoded_key(bucket, key));
    assert(del_command(encoded).skip(1) =~= args);
    if keys.contains(key) {
        let i = keys.index_of(key);
        assert(args[i] == k);
        assert(args.to_set().contains(k));
    } else {
        assert forall|i: int| 0 <= i < keys.len() implies encode_utf8(
            encoded_key(bucket, #[trigger] keys[i]),
        ) != k by {
            law_keys_are_distinct(bucket, keys[i], key);
            lemma_utf8_is_injective(encoded_key(bucket, keys[i]), encoded_key(bucket, key));
        }
        law_delete_many_changes_only_its_keys(data, bucket, keys, k);
    }
}

/// Law: a batch that deletes changes what the server has under the Redis keys of the bucket
/// and its keys, and under no other key of any bucket or of none.
pub proof fn law_delete_many_changes_only_its_keys(
    data: Keyspace,
    bucket: Seq<char>,
    keys: Seq<Seq<char>>,
    other: Seq<u8>,
)
    requires
        forall|i: int|
            0 <= i < keys.len() ==> encode_utf8(encoded_key(bucket, #[trigger] keys[i])) != other,
    ensures
        value_at(after(data, del_command(encoded_keys(bucket, keys))), other) == value_at(
            data,
            other,
        ),
{
    lemma_names_differ();
    let encoded = encoded_keys(bucket, keys);
    let args = text_args(encoded);
    assert(del_command(encoded).skip(1) =~= args);
    if args.to_set().contains(other) {
        let i = choose|i: int| 0 <= i < args.len() && args[i] == other;
        assert(encode_utf8(encoded_key(bucket, keys[i])) == other);
    }
}

/// Law: a batch that deletes changes no key of another bucket, unless the name of one is
/// that of the other, a colon, and more.
pub proof fn law_delete_many_keeps_other_buckets(
    data: Keyspace,
    bucket: Seq<char>,
    keys: Seq<Seq<char>>,
    other_bucket: Seq<char>,
    other: Seq<char>,
)
    requires
        other_bucket != bucket,
        !overlap(bucket, other_bucket),
    ensures
        ({
            let read = get_command(encoded_key(other_bucket, other));
            reply_to(after(data, del_command(encoded_keys(bucket, keys))), read) == reply_to(
                data,
                read,
            )
        }),
{
    lemma_names_differ();
    let other_key = encoded_key(other_bucket, other);
    assert forall|i: int| 0 <= i < keys.len() implies encode_utf8(
        encoded_key(bucket, #[trigger] keys[i]),
    ) != encode_utf8(other_key) by {
        law_buckets_are_isolated(bucket, keys[i], other_bucket, other);
        lemma_utf8_is_injective(encoded_key(bucket, keys[i]), other_key);
    }
    law_delete_many_changes_only_its_keys(data, bucket, keys, encode_utf8(other_key));
}

/// Law: where a page holds what the bucket's pattern matches, a key is listed where its
/// Redis key is on the page, and only there.
pub proof fn law_listing_is_exact(bucket: Seq<char>, encoded: Seq<Seq<char>>, key: Seq<char>)
    requires
        forall|i: int|
            0 <= i < encoded.len() ==> glob_matches(
                encode_utf8(listing_pattern(bucket)),
                encode_utf8(#[trigger] encoded[i]),
            ),
    ensures
        listed_keys(bucket, encoded).contains(key) <==> encoded.contains(
            encoded_key(bucket, key),
        ),
{
    let listed = listed_keys(bucket, encoded);
    if listed.contains(key) {
        let i = listed.index_of(key);
        law_pattern_is_the_bucket(bucket, encoded[i]);
        law_prefix_is_the_bucket(bucket, encoded[i]);
        assert(encoded[i] == encoded_key(bucket, key));
    }
    if encoded.contains(encoded_key(bucket, key)) {
        let i = encoded.index_of(encoded_key(bucket, key));
        law_strip_undoes_encode(bucket, key);
        assert(listed[i] == key);
    }
}

/// Law: a listed key is there to be read, where the page holds what the bucket's pattern
/// matches of the keys that the server has.
pub proof fn law_listed_key_exists(
    data: Keyspace,
    bucket: Seq<char>,
    encoded: Seq<Seq<char>>,
    i: int,
)
    requires
        0 <= i < encoded.len(),
        glob_matches(encode_utf8(listing_pattern(bucket)), encode_utf8(encoded[i])),
        data.contains_key(encode_utf8(encoded[i])),
    ensures
        reply_to(
            data,
            exists_command(encoded_key(bucket, listed_keys(bucket, encoded)[i])),
        ) == Reply::Number(1),
{
    lemma_names_differ();
    law_pattern_is_the_bucket(bucket, encoded[i]);
    law_prefix_is_the_bucket(bucket, encoded[i]);
}

/// Law: a listing of two stretches of pages, one after the other, lists the keys of the
/// first and then those of the second.
pub proof fn law_pages_add_up(
    bucket: Seq<char>,
    first: Seq<Seq<char>>,
    second: Seq<Seq<char>>,
)
    ensures
        listed_keys(bucket, first + second) == listed_keys(bucket, first) + listed_keys(
            bucket,
            second,
        ),
{
    assert(listed_keys(bucket, first + second) =~= listed_keys(bucket, first) + listed_keys(
        bucket,
        second,
    ));
}

/// The cursor that a page of a listing is asked for with: none for the first one, and that
/// of the page before for the others.
pub open spec fn page_cursor(responses: Seq<KeyResponse>, page: int) -> Option<u64> {
    if page == 0 {
        None
    } else {
        responses[page - 1].cursor
    }
}

/// The commands and the answers are those of a caller that lists a bucket from the start,
/// page by page, until a page comes without a cursor.
pub open spec fn is_whole_listing(
    bucket: Seq<char>,
    commands: Seq<Seq<Seq<u8>>>,
    responses: Seq<KeyResponse>,
) -> bool {
    &&& commands.len() == responses.len()
    &&& commands.len() > 0
    &&& forall|i: int|
        0 <= i < commands.len() ==> #[trigger] commands[i] == scan_command(
            sent_cursor(page_cursor(responses, i)),
            listing_pattern(bucket),
            PAGE_COUNT,
        )
    &&& forall|i: int|
        0 <= i < responses.len() ==> ((#[trigger] responses[i]).cursor is None <==> i
            == responses.len() - 1)
}

/// Law: a caller that lists a bucket from the start, page by page until a page comes without
/// a cursor, over data that stays the same, is given a key where it exists in
/// the bucket, and only there, whatever the characters of the bucket's name and
/// however the keys are spread over the pages.
pub proof fn law_whole_listing_is_the_bucket(
    data: Keyspace,
    bucket: Seq<char>,
    commands: Seq<Seq<Seq<u8>>>,
    replies: Seq<ScanReply>,
    responses: Seq<KeyResponse>,
    key: Seq<char>,
)
    requires
        is_whole_listing(bucket, commands, responses),
        replies.len() == responses.len(),
        forall|i: int|
            0 <= i < replies.len() ==> lists(
                #[trigger] responses[i],
                bucket,
                replies[i].0,
                replies[i].1,
            ),
        scan_replies(data, commands, replies),
    ensures
        (exists|i: int, j: int|
            0 <= i < responses.len() && 0 <= j < responses[i].keys@.len()
                && #[trigger] responses[i].keys@[j]@ == key) <==> reply_to(
            data,
            exists_command(encoded_key(bucket, key)),
        ) == Reply::Number(1),
{
    lemma_names_differ();
    let pattern = encode_utf8(listing_pattern(bucket));
    let encoded = encoded_key(bucket, key);
    let k = encode_utf8(encoded);
    assert forall|i: int| 0 <= i < responses.len() implies {
        &&& ((#[trigger] responses[i]).cursor is None <==> replies[i].0 == 0)
        &&& responses[i].cursor is Some ==> responses[i].cursor->0 == replies[i].0
    } by {
        law_page_gives_the_reply(responses[i], bucket, replies[i].0, replies[i].1);
    }
    assert(commands[0] == scan_command(0, listing_pattern(bucket), PAGE_COUNT));
    assert(is_full_iteration(commands, replies)) by {
        assert forall|i: int| 0 < i < commands.len() implies (#[trigger] commands[i])[1] == decimal(
            replies[i - 1].0 as nat,
        ) by {
            assert(responses[i - 1].cursor is Some);
        }
        assert forall|i: int| 0 <= i < replies.len() implies ((#[trigger] replies[i]).0 == 0 <==> i
            == replies.len() - 1) by {
            assert(responses[i].cursor is None <==> replies[i].0 == 0);
        }
    }
    law_pattern_is_the_bucket(bucket, encoded);
    law_prefix_is_the_bucket(bucket, encoded);
    if exists|i: int, j: int|
        0 <= i < responses.len() && 0 <= j < responses[i].keys@.len()
            && #[trigger] responses[i].keys@[j]@ == key {
        let (i, j) = choose|i: int, j: int|
            0 <= i < responses.len() && 0 <= j < responses[i].keys@.len()
                && #[trigger] responses[i].keys@[j]@ == key;
        law_page_gives_the_reply(responses[i], bucket, replies[i].0, replies[i].1);
        let replied = replies[i].1[j];
        assert(is_replied(replies, encode_utf8(replied)));
        law_pattern_is_the_bucket(bucket, replied);
        let listed = choose|listed: Seq<char>| replied == encoded_key(bucket, listed);
        assert(replied == encoded_key(bucket, listed));
        assert(responses[i].keys@[j]@ == listed);
        assert(is_replied(replies, k));
    }
    if data.contains_key(k) {
        assert(is_replied(replies, k));
        let (i, j) = choose|i: int, j: int|
            0 <= i < replies.len() && 0 <= j < replies[i].1.len() && encode_utf8(
                #[trigger] replies[i].1[j],
            ) == k;
        lemma_utf8_is_injective(replies[i].1[j], encoded);
        law_page_gives_the_reply(responses[i], bucket, replies[i].0, replies[i].1);
        assert(responses[i].keys@[j]@ == key);
    }
}

/// Each digit text starts with a digit.
proof fn lemma_decimal_starts_with_digit(n: nat)
    ensures
        decimal(n).len() > 0,
        48 <= decimal(n)[0] <= 57,
    decreases n,
{
    if n >= 10 {
        lemma_decimal_starts_with_digit(n / 10);
    }
}

/// Two numbers are spelled alike only where they are the same.
proof fn lemma_decimal_is_injective(a: nat, b: nat)
    requires
        decimal(a) == decimal(b),
    ensures
        a == b,
    decreases a,
{
    lemma_decimal_starts_with_digit(a / 10);
    lemma_decimal_starts_with_digit(b / 10);
    assert(decimal(a).last() == 48 + a % 10);
    assert(decimal(b).last() == 48 + b % 10);
    assert(a >= 10 <==> decimal(a).len() >= 2);
    assert(b >= 10 <==> decimal(b).len() >= 2);
    if a >= 10 {
        assert(decimal(a).drop_last() =~= decimal(a / 10));
        assert(decimal(b).drop_last() =~= decimal(b / 10));
        lemma_decimal_is_injective(a / 10, b / 10);
    }
}

/// The text of a 64-bit integer spells that integer.
proof fn lemma_spelled(n: i64)
    ensures
        spelled(signed_decimal(n as int)) == Some(n),
{
    let text = signed_decimal(n as int);
    let m = choose|m: i64| signed_decimal(m as int) == text;
    assert(signed_decimal(m as int) == text);
    let a = if n < 0 { -(n as int) } else { n as int };
    let b = if m < 0 { -(m as int) } else { m as int };
    lemma_decimal_starts_with_digit(a as nat);
    lemma_decimal_starts_with_digit(b as nat);
    assert((n < 0) == (m < 0)) by {
        assert((text[0] == 45) == (n < 0));
        assert((text[0] == 45) == (m < 0));
    }
    if n < 0 {
        assert(text.skip(1) =~= decimal(a as nat));
        assert(text.skip(1) =~= decimal(b as nat));
    }
    lemma_decimal_is_injective(a as nat, b as nat);
}

/// Law: an increment answers the number that the counter stood at plus the delta, in 64
/// bits, and leaves the counter at it; no bits are lost where the counter was not
/// negative and the sum is at most the largest signed number. A key without a
/// value counts as 0. Left out are the increments that the server refuses: of
/// a value that is no number, or beyond the signed range.
pub proof fn law_increment_adds(
    data: Keyspace,
    bucket: Seq<char>,
    key: Seq<char>,
    delta: u64,
    n: i64,
)
    requires
        counter(data, encode_utf8(encoded_key(bucket, key))) == Some(n),
        i64::MIN <= n + as_signed(delta) <= i64::MAX,
    ensures
        ({
            let k = encoded_key(bucket, key);
            let command = incrby_command(k, as_signed(delta));
            let reply = reply_to(data, command);
            &&& reply matches Reply::Number(sum)
            &&& i64::MIN <= sum <= i64::MAX
            &&& as_unsigned(sum as i64) == (n + delta) % 0x1_0000_0000_0000_0000
            &&& n >= 0 && n + delta <= i64::MAX ==> as_unsigned(sum as i64) == n + delta
            &&& counter(after(data, command), encode_utf8(k)) == Some(sum as i64)
            &&& reply_to(after(data, command), get_command(k)) == Reply::Value(
                Some(signed_decimal(sum)),
            )
        }),
{
    lemma_names_differ();
    let signed = as_signed(delta) as i64;
    lemma_spelled(signed);
    lemma_spelled((n + signed) as i64);
}

/// Law: an increment of a value that is no number, or beyond the signed range, is refused and
/// changes nothing.
pub proof fn law_refused_increment_changes_nothing(
    data: Keyspace,
    bucket: Seq<char>,
    key: Seq<char>,
    delta: u64,
)
    requires
        ({
            let n = counter(data, encode_utf8(encoded_key(bucket, key)));
            n is None || !(i64::MIN <= n->0 + as_signed(delta) <= i64::MAX)
        }),
    ensures
        ({
            let command = incrby_command(encoded_key(bucket, key), as_signed(delta));
            &&& reply_to(data, command) is Refused
            &&& after(data, command) == data
        }),
{
    lemma_names_differ();
    lemma_spelled(as_signed(delta) as i64);
}

/// Law: two increments of a counter add up.
pub proof fn law_increments_add_up(
    data: Keyspace,
    bucket: Seq<char>,
    key: Seq<char>,
    delta1: u64,
    delta2: u64,
    n: i64,
)
    requires
        counter(data, encode_utf8(encoded_key(bucket, key))) == Some(n),
        0 <= n,
        n + delta1 + delta2 <= i64::MAX,
    ensures
        ({
            let k = encoded_key(bucket, key);
            let first = incrby_command(k, as_signed(delta1));
            let second = incrby_command(k, as_signed(delta2));
            let reply1 = reply_to(data, first);
            let reply2 = reply_to(after(data, first), second);
            &&& reply1 matches Reply::Number(sum1) && as_unsigned(sum1 as i64) == n + delta1
            &&& reply2 matches Reply::Number(sum2) && as_unsigned(sum2 as i64) == n + delta1
                + delta2
        }),
{
    law_increment_adds(data, bucket, key, delta1, n);
    let first = incrby_command(encoded_key(bucket, key), as_signed(delta1));
    law_increment_adds(after(data, first), bucket, key, delta2, (n + delta1) as i64);
}

} // verus!
