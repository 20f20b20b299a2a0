//! `wasi:keyvalue/store`: buckets, single keys and key listing.

use vstd::prelude::*;
use vstd::utf8::encode_utf8;
use wasmtime::component::{ResourceTable, ResourceTableError};

use crate::call::{reply, Call};
use crate::command;
use crate::command::{
    cmd_args, decimal, del_command, exists_command, get_command, scan_command, set_command,
};
use crate::ctx::WasiKeyValueRedisCtx;
use crate::error::{Error, StoreError};
use crate::keys::{
    bucket_pattern, encode_key, encoded_key, law_foreign_key_is_kept, law_key_is_spelled_out,
    law_strip_undoes_encode, listing_pattern, overlap, strip_prefix, stripped_key,
};
use crate::table::{
    found, is_added, is_detachable, is_full, removed, table_delete, table_entries,
    table_error_message, table_get, table_limit, table_push, without, Bucket, BucketHandle,
    TableEntry,
};

verus! {

/// Short-lived view of a host that the calls are made on.
pub struct WasiKeyValueRedis<'a> {
    pub ctx: &'a WasiKeyValueRedisCtx,
    pub table: &'a mut ResourceTable,
}

/// A page of the keys of a bucket.
#[derive(Debug)]
pub struct KeyResponse {
    /// The user keys of the page.
    pub keys: Vec<String>,
    /// Where the next page starts; `None` after the last one.
    pub cursor: Option<u64>,
}

/// How many keys a page is asked to hold.
pub const PAGE_COUNT: u64 = 100;

/// The name of the bucket that an identifier opens.
pub open spec fn bucket_name(identifier: Seq<char>) -> Seq<char> {
    if identifier.len() == 0 {
        "default"@
    } else {
        identifier
    }
}

/// The Redis cursor of a page: the first page is at 0.
pub open spec fn sent_cursor(cursor: Option<u64>) -> u64 {
    match cursor {
        Some(cursor) => cursor,
        None => 0,
    }
}

/// The cursor of the page after one: Redis ends a listing with 0.
pub open spec fn next_cursor(cursor: u64) -> Option<u64> {
    if cursor == 0 {
        None
    } else {
        Some(cursor)
    }
}

/// The user keys of a page of Redis keys, in order.
pub open spec fn listed_keys(bucket: Seq<char>, encoded: Seq<Seq<char>>) -> Seq<Seq<char>> {
    Seq::new(encoded.len(), |i: int| stripped_key(bucket, encoded[i]))
}

/// `response` is the page that a reply to `SCAN` lists for the bucket: its user keys
/// in the order of the reply, and the cursor of the next page.
pub open spec fn lists(
    response: KeyResponse,
    bucket: Seq<char>,
    cursor: u64,
    encoded: Seq<Seq<char>>,
) -> bool {
    &&& response.cursor == next_cursor(cursor)
    &&& response.keys.deep_view() == listed_keys(bucket, encoded)
}

impl<'a> WasiKeyValueRedis<'a> {
    /// The entries of the host's resource table.
    pub open spec fn entries(self) -> Seq<Option<TableEntry>> {
        table_entries(*self.table)
    }

    /// How many entries the host's resource table may grow to.
    pub open spec fn limit(self) -> usize {
        table_limit(*self.table)
    }

    /// Makes the view of a host on its context and its resource table.
    pub fn new(ctx: &'a WasiKeyValueRedisCtx, table: &'a mut ResourceTable) -> (host: Self)
        ensures
            host.ctx == ctx,
            *host.table == *old(table),
            *final(host.table) == *final(table),
            host.entries() == table_entries(*old(table)),
            host.limit() == table_limit(*old(table)),
    {
        WasiKeyValueRedis { ctx, table }
    }

    /// Finds the bucket of a handle.
    pub(crate) fn bucket(&self, bucket: BucketHandle) -> (result: Result<&Bucket, Error>)
        ensures
            match found(self.entries(), bucket.rep) {
                Ok(name) => result matches Ok(bucket) && bucket@ == name,
                Err(err) => result matches Err(error) && error.says(table_error_message(err)),
            },
    {
        match table_get(self.table, bucket.rep) {
            Ok(bucket) => Ok(bucket),
            Err(err) => Err(Error::from(err)),
        }
    }

    /// Opens the bucket of this name, or `default` where the name is empty. It fails
    /// where the resource table is full.
    pub fn open(&mut self, identifier: String) -> (bucket: Result<BucketHandle, Error>)
        ensures
            final(self).ctx == old(self).ctx,
            *final(final(self).table) == *final(old(self).table),
            final(self).limit() == old(self).limit(),
            match bucket {
                Ok(bucket) => {
                    &&& !is_full(old(self).entries(), old(self).limit())
                    &&& is_added(
                        old(self).entries(),
                        final(self).entries(),
                        bucket.rep,
                        bucket_name(identifier@),
                    )
                    &&& identifier@.len() > 0 ==> found(final(self).entries(), bucket.rep)
                        == Ok::<_, ResourceTableError>(identifier@)
                    &&& identifier@.len() == 0 ==> found(final(self).entries(), bucket.rep)
                        == Ok::<_, ResourceTableError>("default"@)
                },
                Err(error) => {
                    &&& is_full(old(self).entries(), old(self).limit())
                    &&& error.says(table_error_message(ResourceTableError::Full))
                    &&& final(self).entries() == old(self).entries()
                },
            },
    {
        let name = if identifier.as_str().is_empty() {
            "default".to_owned()
        } else {
            identifier
        };
        match table_push(self.table, Bucket::new(name)) {
            Ok(rep) => Ok(BucketHandle { rep }),
            Err(err) => Err(Error::from(err)),
        }
    }

    /// Gives the error that a guest sees, variant for variant.
    pub fn convert_error(&mut self, err: Error) -> (error: StoreError)
        ensures
            *final(self) == *old(self),
            error == (match err {
                Error::NoSuchStore => StoreError::NoSuchStore,
                Error::AccessDenied => StoreError::AccessDenied,
                Error::Other(text) => StoreError::Other(text),
            }),
    {
        match err {
            Error::NoSuchStore => StoreError::NoSuchStore,
            Error::AccessDenied => StoreError::AccessDenied,
            Error::Other(text) => StoreError::Other(text),
        }
    }

    /// Reads the value of a key: `GET`. The reply is the answer ([`reply`]).
    pub fn get(&mut self, bucket: BucketHandle, key: String) -> (call: Result<
        Call<redis::Cmd>,
        Error,
    >)
        ensures
            *final(self) == *old(self),
            match found(old(self).entries(), bucket.rep) {
                Ok(name) => call matches Ok(call) && cmd_args(call@) == get_command(
                    encoded_key(name, key@),
                ),
                Err(err) => call matches Err(error) && error.says(table_error_message(err)),
            },
    {
        let bucket = match self.bucket(bucket) {
            Ok(bucket) => bucket,
            Err(error) => return Err(error),
        };
        let k = encode_key(bucket.name(), key.as_str());
        Ok(Call::new(command::get(k.as_str())))
    }

    /// Sets the value of a key: `SET`. The reply is the answer ([`reply`]).
    pub fn set(&mut self, bucket: BucketHandle, key: String, value: Vec<u8>) -> (call: Result<
        Call<redis::Cmd>,
        Error,
    >)
        ensures
            *final(self) == *old(self),
            match found(old(self).entries(), bucket.rep) {
                Ok(name) => call matches Ok(call) && cmd_args(call@) == set_command(
                    encoded_key(name, key@),
                    value@,
                ),
                Err(err) => call matches Err(error) && error.says(table_error_message(err)),
            },
    {
        let bucket = match self.bucket(bucket) {
            Ok(bucket) => bucket,
            Err(error) => return Err(error),
        };
        let k = encode_key(bucket.name(), key.as_str());
        Ok(Call::new(command::set(k.as_str(), value)))
    }

    /// Deletes a key: `DEL`. The reply is the answer ([`reply`]).
    pub fn delete(&mut self, bucket: BucketHandle, key: String) -> (call: Result<
        Call<redis::Cmd>,
        Error,
    >)
        ensures
            *final(self) == *old(self),
            match found(old(self).entries(), bucket.rep) {
                Ok(name) => call matches Ok(call) && cmd_args(call@) == del_command(
                    seq![encoded_key(name, key@)],
                ),
                Err(err) => call matches Err(error) && error.says(table_error_message(err)),
            },
    {
        let bucket = match self.bucket(bucket) {
            Ok(bucket) => bucket,
            Err(error) => return Err(error),
        };
        let k = encode_key(bucket.name(), key.as_str());
        let keys = vec![k];
        assert(keys.deep_view() =~= seq![k@]);
        Ok(Call::new(command::del(&keys)))
    }

    /// Tells whether a key is there: `EXISTS`. The reply is the answer ([`reply`]).
    pub fn key_exists(&mut self, bucket: BucketHandle, key: String) -> (call: Result<
        Call<redis::Cmd>,
        Error,
    >)
        ensures
            *final(self) == *old(self),
            match found(old(self).entries(), bucket.rep) {
                Ok(name) => call matches Ok(call) && cmd_args(call@) == exists_command(
                    encoded_key(name, key@),
                ),
                Err(err) => call matches Err(error) && error.says(table_error_message(err)),
            },
    {
        let bucket = match self.bucket(bucket) {
            Ok(bucket) => bucket,
            Err(error) => return Err(error),
        };
        let k = encode_key(bucket.name(), key.as_str());
        Ok(Call::new(command::key_exists(k.as_str())))
    }

    /// Lists a page of the keys of a bucket: `SCAN` with the bucket's pattern, from the
    /// cursor, or from the start where there is none. The reply goes to
    /// [`list_keys_reply`], with the name of the bucket that stands beside the command.
    pub fn list_keys(&mut self, bucket: BucketHandle, cursor: Option<u64>) -> (call: Result<
        Call<(redis::Cmd, String)>,
        Error,
    >)
        ensures
            *final(self) == *old(self),
            match found(old(self).entries(), bucket.rep) {
                Ok(name) => {
                    &&& call matches Ok(call)
                    &&& cmd_args(call@.0) == scan_command(
                        sent_cursor(cursor),
                        listing_pattern(name),
                        PAGE_COUNT,
                    )
                    &&& call@.1@ == name
                },
                Err(err) => call matches Err(error) && error.says(table_error_message(err)),
            },
    {
        let bucket = match self.bucket(bucket) {
            Ok(bucket) => bucket,
            Err(error) => return Err(error),
        };
        let pattern = bucket_pattern(bucket.name());
        let redis_cursor: u64 = match cursor {
            Some(cursor) => cursor,
            None => 0,
        };
        let command = command::scan(redis_cursor, pattern.as_str(), PAGE_COUNT);
        Ok(Call::new((command, bucket.name().to_owned())))
    }

    /// Closes a bucket: its handle leads nowhere afterwards. The data stays in Redis.
    ///
    /// The table panics where the entry of the handle names a parent that has
    /// gone, so such an entry is left out.
    pub fn drop(&mut self, bucket: BucketHandle) -> (result: Result<(), ResourceTableError>)
        requires
            is_detachable(old(self).entries(), bucket.rep),
        ensures
            final(self).ctx == old(self).ctx,
            *final(final(self).table) == *final(old(self).table),
            final(self).limit() == old(self).limit(),
            match removed(old(self).entries(), bucket.rep) {
                Ok(_) => result is Ok,
                Err(err) => result == Err::<(), ResourceTableError>(err),
            },
            final(self).entries() == (match result {
                Err(ResourceTableError::NotPresent) => old(self).entries(),
                Err(ResourceTableError::HasChildren) => old(self).entries(),
                _ => without(old(self).entries(), bucket.rep),
            }),
    {
        match table_delete(self.table, bucket.rep) {
            Ok(_) => Ok(()),
            Err(err) => Err(err),
        }
    }
}

/// Reads the reply to the `SCAN` of a listing: the next cursor, and the Redis keys of the
/// page. A cursor of 0 is the end of the listing.
pub fn list_keys_reply(
    bucket: String,
    outcome: Result<(u64, Vec<String>), redis::RedisError>,
) -> (response: Result<KeyResponse, Error>)
    ensures
        match outcome {
            Ok((cursor, encoded)) => {
                &&& response matches Ok(response)
                &&& lists(response, bucket@, cursor, encoded.deep_view())
                &&& response.keys@.len() == encoded@.len()
                &&& cursor == 0 ==> response.cursor is None
                &&& cursor != 0 ==> response.cursor == Some(cursor)
            },
            Err(err) => response matches Err(error) && error.reports(err),
        },
{
    let (cursor, encoded) = match reply(outcome) {
        Ok(page) => page,
        Err(error) => return Err(error),
    };
    let mut keys: Vec<String> = Vec::new();
    let mut i: usize = 0;
    while i < encoded.len()
        invariant
            i <= encoded.len(),
            keys.deep_view() == listed_keys(bucket@, encoded.deep_view().take(i as int)),
        decreases encoded.len() - i,
    {
        let ghost before = keys.deep_view();
        let key = strip_prefix(bucket.as_str(), encoded[i].as_str());
        keys.push(key);
        i += 1;
        assert(keys.deep_view() =~= before.push(key@));
    }
    assert(encoded.deep_view().take(encoded.len() as int) =~= encoded.deep_view());
    let out_cursor = if cursor == 0 {
        None
    } else {
        Some(cursor)
    };
    Ok(KeyResponse { keys, cursor: out_cursor })
}

/// Law: a non-empty identifier opens the bucket of exactly that name, and only an empty one
/// opens `default` in place of its own.
pub proof fn law_identifier_is_the_name(
    before: Seq<Option<TableEntry>>,
    after: Seq<Option<TableEntry>>,
    rep: u32,
    identifier: Seq<char>,
)
    requires
        is_added(before, after, rep, bucket_name(identifier)),
    ensures
        identifier.len() > 0 ==> found(after, rep) == Ok::<_, ResourceTableError>(identifier),
        identifier.len() == 0 ==> found(after, rep) == Ok::<_, ResourceTableError>("default"@),
{
}

/// Law: two non-empty identifiers open the same bucket where they are the same, and only
/// there.
pub proof fn law_identifiers_are_told_apart(identifier1: Seq<char>, identifier2: Seq<char>)
    requires
        identifier1.len() > 0,
        identifier2.len() > 0,
    ensures
        bucket_name(identifier1) == bucket_name(identifier2) <==> identifier1 == identifier2,
        overlap(bucket_name(identifier1), bucket_name(identifier2)) <==> overlap(
            identifier1,
            identifier2,
        ),
{
}

/// Law: the bucket of an empty identifier is that of the identifier `default`, and of no
/// other.
pub proof fn law_empty_identifier_is_default(identifier: Seq<char>)
    requires
        identifier.len() > 0,
    ensures
        bucket_name(seq![]) == bucket_name(identifier) <==> identifier == "default"@,
{
    reveal_strlit("default");
}

/// Law: a call on a key sends the name of its command, the Redis key of its bucket and key,
/// for `SET` the value, and nothing else.
pub proof fn law_calls_send_their_key(bucket: Seq<char>, key: Seq<char>, value: Seq<u8>)
    ensures
        ({
            let k = encoded_key(bucket, key);
            let bytes = encode_utf8("wasi_kv:"@ + bucket + seq![':'] + key);
            let (get, set) = (get_command(k), set_command(k, value));
            let (del, exist) = (del_command(seq![k]), exists_command(k));
            &&& get.len() == 2 && get[0] == encode_utf8("GET"@) && get[1] == bytes
            &&& set.len() == 3 && set[0] == encode_utf8("SET"@) && set[1] == bytes
            &&& set[2] == value
            &&& del.len() == 2 && del[0] == encode_utf8("DEL"@) && del[1] == bytes
            &&& exist.len() == 2 && exist[0] == encode_utf8("EXISTS"@) && exist[1] == bytes
        }),
{
    law_key_is_spelled_out(bucket, key);
}

/// Law: a listing sends `SCAN` from the cursor that it is given, whichever that is, or from
/// 0 where it is given none, with the bucket's pattern and a count of 100.
pub proof fn law_listing_sends_its_cursor(bucket: Seq<char>, cursor: Option<u64>)
    ensures
        ({
            let command = scan_command(sent_cursor(cursor), listing_pattern(bucket), PAGE_COUNT);
            &&& command.len() == 6
            &&& command[0] == encode_utf8("SCAN"@)
            &&& cursor is None ==> command[1] == decimal(0)
            &&& cursor is Some ==> command[1] == decimal(cursor->0 as nat)
            &&& command[2] == encode_utf8("MATCH"@)
            &&& command[3] == encode_utf8(listing_pattern(bucket))
            &&& command[4] == encode_utf8("COUNT"@)
            &&& command[5] == seq![49u8, 48u8, 48u8]
        }),
{
    reveal_with_fuel(decimal, 3);
    assert(decimal(100) =~= seq![49u8, 48u8, 48u8]);
}

/// Law: a page has one key for each Redis key of the reply, in order: the user key of a
/// Redis key of the bucket, and any other text as it is. Whatever it holds, it
/// has a cursor where the reply's is not 0, and only there, and then that one.
pub proof fn law_page_gives_the_reply(
    response: KeyResponse,
    bucket: Seq<char>,
    cursor: u64,
    encoded: Seq<Seq<char>>,
)
    requires
        lists(response, bucket, cursor, encoded),
    ensures
        response.cursor is None <==> cursor == 0,
        response.cursor is Some ==> response.cursor->0 == cursor,
        response.keys@.len() == encoded.len(),
        forall|i: int, key: Seq<char>|
            0 <= i < encoded.len() && encoded[i] == #[trigger] encoded_key(bucket, key)
                ==> #[trigger] response.keys@[i]@ == key,
        forall|i: int|
            0 <= i < encoded.len() && (forall|key: Seq<char>|
                encoded[i] != #[trigger] encoded_key(bucket, key))
                ==> #[trigger] response.keys@[i]@ == encoded[i],
{
    let keys = response.keys.deep_view();
    assert(keys.len() == response.keys@.len());
    assert forall|i: int, key: Seq<char>|
        0 <= i < encoded.len() && encoded[i] == #[trigger] encoded_key(
            bucket,
            key,
        ) implies #[trigger] response.keys@[i]@ == key by {
        law_strip_undoes_encode(bucket, key);
        assert(keys[i] == response.keys@[i]@);
    }
    assert forall|i: int|
        0 <= i < encoded.len() && (forall|key: Seq<char>|
            encoded[i] != #[trigger] encoded_key(
                bucket,
                key,
            )) implies #[trigger] response.keys@[i]@ == encoded[i] by {
        law_foreign_key_is_kept(bucket, encoded[i]);
        assert(keys[i] == response.keys@[i]@);
    }
}

/// Law: a listing resumed with the cursor of a page goes on where Redis said, a listing
/// without a cursor starts where Redis starts, and a page without a cursor is the last.
pub proof fn law_cursors_resume_a_listing(cursor: u64)
    ensures
        sent_cursor(next_cursor(cursor)) == cursor,
        sent_cursor(Some(cursor)) == cursor,
        next_cursor(cursor) is None <==> cursor == 0,
        sent_cursor(None) == 0,
{
}

} // verus!
