//! `wasi:keyvalue/atomics`: counters.

use vstd::prelude::*;
use vstd::utf8::encode_utf8;

use crate::call::{reply, Call};
use crate::command;
use crate::command::{cmd_args, incrby_command, signed_decimal};
use crate::error::Error;
use crate::keys::{encode_key, encoded_key, law_key_is_spelled_out};
use crate::store::WasiKeyValueRedis;
use crate::table::{found, table_error_message, BucketHandle};

verus! {

/// The signed number of the same 64 bits.
pub open spec fn as_signed(n: u64) -> int {
    if n <= i64::MAX {
        n as int
    } else {
        n - 0x1_0000_0000_0000_0000
    }
}

/// The unsigned number of the same 64 bits.
pub open spec fn as_unsigned(n: i64) -> int {
    if n >= 0 {
        n as int
    } else {
        n + 0x1_0000_0000_0000_0000
    }
}

impl<'a> WasiKeyValueRedis<'a> {
    /// Adds to a counter: `INCRBY`, with `delta` as a signed number of the same bits. The
    /// reply goes to [`increment_reply`].
    pub fn increment(&mut self, bucket: BucketHandle, key: String, delta: u64) -> (call: Result<
        Call<redis::Cmd>,
        Error,
    >)
        ensures
            *final(self) == *old(self),
            match found(old(self).entries(), bucket.rep) {
                Ok(name) => call matches Ok(call) && cmd_args(call@) == incrby_command(
                    encoded_key(name, key@),
                    as_signed(delta),
                ),
                Err(err) => call matches Err(error) && error.says(table_error_message(err)),
            },
    {
        let bucket = match self.bucket(bucket) {
            Ok(bucket) => bucket,
            Err(error) => return Err(error),
        };
        let k = encode_key(bucket.name(), key.as_str());
        let signed: i64 = delta as i64;
        assert(signed == as_signed(delta)) by {
            assert(delta <= 0x7fff_ffff_ffff_ffff ==> delta as i64 == delta) by (bit_vector);
            assert(delta > 0x7fff_ffff_ffff_ffff ==> delta as i64 == delta
                - 0x1_0000_0000_0000_0000) by (bit_vector);
        }
        Ok(Call::new(command::incr(k.as_str(), signed)))
    }
}

/// Reads the reply to the `INCRBY` of a call: the new value, as an unsigned number of the
/// same bits.
pub fn increment_reply(outcome: Result<i64, redis::RedisError>) -> (value: Result<u64, Error>)
    ensures
        match outcome {
            Ok(new_value) => value matches Ok(value) && value == as_unsigned(new_value),
            Err(err) => value matches Err(error) && error.reports(err),
        },
{
    match reply(outcome) {
        Ok(new_value) => {
            let value: u64 = new_value as u64;
            assert(value == as_unsigned(new_value)) by {
                assert(new_value >= 0 ==> new_value as u64 == new_value) by (bit_vector);
                assert(new_value < 0 ==> new_value as u64 == new_value
                    + 0x1_0000_0000_0000_0000) by (bit_vector);
            }
            Ok(value)
        },
        Err(error) => Err(error),
    }
}

/// Law: a number read as signed is in the signed range and differs from it by a multiple of
/// 2 to the 64, and reading it back as unsigned gives it again.
pub proof fn law_bits_are_kept(n: u64)
    ensures
        i64::MIN <= as_signed(n) <= i64::MAX,
        as_signed(n) % 0x1_0000_0000_0000_0000 == n,
        as_unsigned(as_signed(n) as i64) == n,
        n <= i64::MAX ==> as_signed(n) == n,
{
}

/// Law: a number read as unsigned is in the unsigned range and differs from it by a multiple
/// of 2 to the 64, and stays what it is where it is not negative.
pub proof fn law_unsigned_bits_are_kept(n: i64)
    ensures
        0 <= as_unsigned(n) <= u64::MAX,
        as_unsigned(n) == n as int % 0x1_0000_0000_0000_0000,
        n >= 0 ==> as_unsigned(n) == n,
        as_signed(as_unsigned(n) as u64) == n,
{
}

/// Law: an increment sends `INCRBY`, the Redis key of its bucket and key, and a number that
/// has the bits of the delta, in this order and nothing else.
pub proof fn law_increment_sends_key_and_delta(
    bucket: Seq<char>,
    key: Seq<char>,
    delta: u64,
    signed: i64,
)
    requires
        signed as int % 0x1_0000_0000_0000_0000 == delta,
    ensures
        ({
            let command = incrby_command(encoded_key(bucket, key), as_signed(delta));
            &&& command.len() == 3
            &&& command[0] == encode_utf8("INCRBY"@)
            &&& command[1] == encode_utf8("wasi_kv:"@ + bucket + seq![':'] + key)
            &&& command[2] == signed_decimal(signed as int)
        }),
{
    law_key_is_spelled_out(bucket, key);
}

} // verus!
