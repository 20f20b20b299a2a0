//! `wasi:keyvalue/batch`: several keys in one exchange.

use vstd::prelude::*;
use vstd::utf8::encode_utf8;

use crate::call::{reply, Call, Exchange};
use crate::command;
use crate::command::{cmd_args, del_command, mget_command, mset_command};
use crate::error::Error;
use crate::keys::{encode_key, encoded_key, law_key_is_spelled_out};
use crate::store::WasiKeyValueRedis;
use crate::table::{found, table_error_message, BucketHandle};

verus! {

/// The Redis keys of user keys, in order.
pub open spec fn encoded_keys(bucket: Seq<char>, keys: Seq<Seq<char>>) -> Seq<Seq<char>> {
    Seq::new(keys.len(), |i: int| encoded_key(bucket, keys[i]))
}

/// The pairs with the Redis keys in place of the user keys, in order.
pub open spec fn encoded_pairs(bucket: Seq<char>, pairs: Seq<(Seq<char>, Seq<u8>)>) -> Seq<
    (Seq<char>, Seq<u8>),
> {
    Seq::new(pairs.len(), |i: int| (encoded_key(bucket, pairs[i].0), pairs[i].1))
}

/// The keys beside the values that a reply gives for them, in order, as far as both
/// go; a key without a value is `None`.
pub open spec fn paired(keys: Seq<Seq<char>>, values: Seq<Option<Seq<u8>>>) -> Seq<
    Option<(Seq<char>, Seq<u8>)>,
> {
    Seq::new(
        if keys.len() <= values.len() {
            keys.len()
        } else {
            values.len()
        },
        |i: int|
            match values[i] {
                Some(value) => Some((keys[i], value)),
                None => None,
            },
    )
}

/// Spells the Redis keys of `keys` in `bucket`.
fn encode_keys(bucket: &str, keys: &Vec<String>) -> (encoded: Vec<String>)
    ensures
        encoded.deep_view() == encoded_keys(bucket@, keys.deep_view()),
{
    let mut encoded: Vec<String> = Vec::new();
    let mut i: usize = 0;
    while i < keys.len()
        invariant
            i <= keys.len(),
            encoded.deep_view() == encoded_keys(bucket@, keys.deep_view().take(i as int)),
        decreases keys.len() - i,
    {
        let ghost before = encoded.deep_view();
        let k = encode_key(bucket, keys[i].as_str());
        encoded.push(k);
        i += 1;
        assert(encoded.deep_view() =~= before.push(k@));
    }
    assert(keys.deep_view().take(keys.len() as int) =~= keys.deep_view());
    encoded
}

/// Puts the Redis keys in place of the user keys.
fn encode_pairs(bucket: &str, key_values: Vec<(String, Vec<u8>)>) -> (pairs: Vec<
    (String, Vec<u8>),
>)
    ensures
        pairs.deep_view() == encoded_pairs(bucket@, key_values.deep_view()),
{
    let mut pairs: Vec<(String, Vec<u8>)> = Vec::new();
    for (key, value) in it: key_values
        invariant
            it.seq() == key_values@,
            pairs.deep_view() == encoded_pairs(bucket@, key_values.deep_view().take(it.index())),
    {
        let ghost before = pairs.deep_view();
        let k = encode_key(bucket, key.as_str());
        pairs.push((k, value));
        assert(pairs.deep_view() =~= before.push((k@, value.deep_view())));
    }
    assert(key_values.deep_view().take(key_values.len() as int) =~= key_values.deep_view());
    pairs
}

impl<'a> WasiKeyValueRedis<'a> {
    /// Reads the values of keys: `MGET`, or nothing where there are no keys. The reply
    /// goes to [`get_many_reply`], with the keys that stand beside the command.
    pub fn get_many(&mut self, bucket: BucketHandle, keys: Vec<String>) -> (call: Result<
        Call<Exchange<Vec<String>, Vec<Option<(String, Vec<u8>)>>>>,
        Error,
    >)
        ensures
            *final(self) == *old(self),
            match found(old(self).entries(), bucket.rep) {
                Ok(name) => call matches Ok(call) && match call@ {
                    Exchange::Answer(values) => keys@.len() == 0 && values@.len() == 0,
                    Exchange::Query(command, asked) => {
                        &&& keys@.len() > 0
                        &&& cmd_args(command) == mget_command(
                            encoded_keys(name, keys.deep_view()),
                        )
                        &&& cmd_args(command).len() == keys@.len() + 1
                        &&& cmd_args(command)[0] == encode_utf8("MGET"@)
                        &&& forall|i: int|
                            0 <= i < keys@.len() ==> cmd_args(command)[i + 1] == encode_utf8(
                                encoded_key(name, (#[trigger] keys@[i])@),
                            )
                        &&& asked == keys
                    },
                },
                Err(err) => call matches Err(error) && error.says(table_error_message(err)),
            },
    {
        let bucket = match self.bucket(bucket) {
            Ok(bucket) => bucket,
            Err(error) => return Err(error),
        };
        if keys.is_empty() {
            return Ok(Call::new(Exchange::Answer(Vec::new())));
        }
        let encoded = encode_keys(bucket.name(), &keys);
        Ok(Call::new(Exchange::Query(command::mget(&encoded), keys)))
    }

    /// Sets the values of keys: `MSET`, or nothing where there are none. The reply is the
    /// answer ([`reply`]).
    pub fn set_many(&mut self, bucket: BucketHandle, key_values: Vec<(String, Vec<u8>)>) -> (call:
        Result<Call<Exchange<(), ()>>, Error>)
        ensures
            *final(self) == *old(self),
            match found(old(self).entries(), bucket.rep) {
                Ok(name) => call matches Ok(call) && match call@ {
                    Exchange::Answer(()) => key_values@.len() == 0,
                    Exchange::Query(command, ()) => {
                        &&& key_values@.len() > 0
                        &&& cmd_args(command) == mset_command(
                            encoded_pairs(name, key_values.deep_view()),
                        )
                        &&& cmd_args(command).len() == 2 * key_values@.len() + 1
                        &&& cmd_args(command)[0] == encode_utf8("MSET"@)
                        &&& forall|i: int|
                            0 <= i < key_values@.len() ==> {
                                let (key, value) = #[trigger] key_values.deep_view()[i];
                                &&& cmd_args(command)[2 * i + 1] == encode_utf8(
                                    encoded_key(name, key),
                                )
                                &&& cmd_args(command)[2 * i + 2] == value
                            }
                    },
                },
                Err(err) => call matches Err(error) && error.says(table_error_message(err)),
            },
    {
        let bucket = match self.bucket(bucket) {
            Ok(bucket) => bucket,
            Err(error) => return Err(error),
        };
        if key_values.is_empty() {
            return Ok(Call::new(Exchange::Answer(())));
        }
        let pairs = encode_pairs(bucket.name(), key_values);
        Ok(Call::new(Exchange::Query(command::mset(pairs), ())))
    }

    /// Deletes keys: `DEL`, or nothing where there are none. The reply is the answer
    /// ([`reply`]).
    pub fn delete_many(&mut self, bucket: BucketHandle, keys: Vec<String>) -> (call: Result<
        Call<Exchange<(), ()>>,
        Error,
    >)
        ensures
            *final(self) == *old(self),
            match found(old(self).entries(), bucket.rep) {
                Ok(name) => call matches Ok(call) && match call@ {
                    Exchange::Answer(()) => keys@.len() == 0,
                    Exchange::Query(command, ()) => {
                        &&& keys@.len() > 0
                        &&& cmd_args(command) == del_command(
                            encoded_keys(name, keys.deep_view()),
                        )
                        &&& cmd_args(command).len() == keys@.len() + 1
                        &&& cmd_args(command)[0] == encode_utf8("DEL"@)
                        &&& forall|i: int|
                            0 <= i < keys@.len() ==> cmd_args(command)[i + 1] == encode_utf8(
                                encoded_key(name, (#[trigger] keys@[i])@),
                            )
                    },
                },
                Err(err) => call matches Err(error) && error.says(table_error_message(err)),
            },
    {
        let bucket = match self.bucket(bucket) {
            Ok(bucket) => bucket,
            Err(error) => return Err(error),
        };
        if keys.is_empty() {
            return Ok(Call::new(Exchange::Answer(())));
        }
        let encoded = encode_keys(bucket.name(), &keys);
        Ok(Call::new(Exchange::Query(command::del(&encoded), ())))
    }
}

/// Reads the reply to the `MGET` of a batch: each key with its value, or `None` where it
/// has none, in the order of the keys.
pub fn get_many_reply(
    keys: Vec<String>,
    outcome: Result<Vec<Option<Vec<u8>>>, redis::RedisError>,
) -> (values: Result<Vec<Option<(String, Vec<u8>)>>, Error>)
    ensures
        match outcome {
            Ok(replied) => values matches Ok(values) && values.deep_view() == paired(
                keys.deep_view(),
                replied.deep_view(),
            ),
            Err(err) => values matches Err(error) && error.reports(err),
        },
{
    let replied = match reply(outcome) {
        Ok(replied) => replied,
        Err(error) => return Err(error),
    };
    let mut values: Vec<Option<(String, Vec<u8>)>> = Vec::new();
    let mut i: usize = 0;
    for value in it: replied
        invariant
            it.seq() == replied@,
            i <= keys.len(),
            i == (if it.index() <= keys.len() { it.index() } else { keys.len() as int }),
            values.deep_view() == paired(
                keys.deep_view(),
                replied.deep_view().take(it.index()),
            ),
    {
        if i < keys.len() {
            let ghost before = values.deep_view();
            let entry = match value {
                Some(bytes) => Some((keys[i].clone(), bytes)),
                None => None,
            };
            values.push(entry);
            i += 1;
            assert(values.deep_view() =~= before.push(entry.deep_view()));
        }
    }
    assert(replied.deep_view().take(replied.len() as int) =~= replied.deep_view());
    Ok(values)
}

/// Law: a batch of keys sends the name of its command and then one argument for each key, in
/// order: the Redis key of the bucket and that key.
pub proof fn law_batch_sends_each_key(bucket: Seq<char>, keys: Seq<Seq<char>>)
    ensures
        ({
            let mget = mget_command(encoded_keys(bucket, keys));
            let del = del_command(encoded_keys(bucket, keys));
            &&& mget.len() == keys.len() + 1 && mget[0] == encode_utf8("MGET"@)
            &&& del.len() == keys.len() + 1 && del[0] == encode_utf8("DEL"@)
            &&& forall|i: int|
                0 <= i < keys.len() ==> {
                    let bytes = encode_utf8("wasi_kv:"@ + bucket + seq![':'] + #[trigger] keys[i]);
                    mget[i + 1] == bytes && del[i + 1] == bytes
                }
        }),
{
    let encoded = encoded_keys(bucket, keys);
    assert forall|i: int| 0 <= i < keys.len() implies {
        let bytes = encode_utf8("wasi_kv:"@ + bucket + seq![':'] + #[trigger] keys[i]);
        mget_command(encoded)[i + 1] == bytes && del_command(encoded)[i + 1] == bytes
    } by {
        law_key_is_spelled_out(bucket, keys[i]);
    }
}

/// Law: a batch of pairs sends `MSET` and then two arguments for each pair, in order: the
/// Redis key of the bucket and the key of the pair, and its value.
pub proof fn law_batch_sends_each_pair(bucket: Seq<char>, pairs: Seq<(Seq<char>, Seq<u8>)>)
    ensures
        ({
            let mset = mset_command(encoded_pairs(bucket, pairs));
            &&& mset.len() == 2 * pairs.len() + 1 && mset[0] == encode_utf8("MSET"@)
            &&& forall|i: int|
                0 <= i < pairs.len() ==> {
                    &&& mset[2 * i + 1] == encode_utf8(
                        "wasi_kv:"@ + bucket + seq![':'] + (#[trigger] pairs[i]).0,
                    )
                    &&& mset[2 * i + 2] == pairs[i].1
                }
        }),
{
    let mset = mset_command(encoded_pairs(bucket, pairs));
    assert forall|i: int| 0 <= i < pairs.len() implies {
        &&& mset[2 * i + 1] == encode_utf8(
            "wasi_kv:"@ + bucket + seq![':'] + (#[trigger] pairs[i]).0,
        )
        &&& mset[2 * i + 2] == pairs[i].1
    } by {
        law_key_is_spelled_out(bucket, pairs[i].0);
    }
}

/// Law: the answer to a batch goes as far as the keys and the reply both go. Each entry is
/// the key at its place with the value at its place, or `None` where there is no value.
pub proof fn law_values_stand_beside_their_keys(
    keys: Seq<Seq<char>>,
    values: Seq<Option<Seq<u8>>>,
)
    ensures
        paired(keys, values).len() <= keys.len(),
        paired(keys, values).len() <= values.len(),
        paired(keys, values).len() == keys.len() || paired(keys, values).len() == values.len(),
        forall|i: int|
            0 <= i < keys.len() && 0 <= i < values.len() ==> {
                &&& (#[trigger] paired(keys, values)[i] is None <==> values[i] is None)
                &&& values[i] is Some ==> paired(keys, values)[i] == Some((keys[i], values[i]->0))
            },
{
}

} // verus!
