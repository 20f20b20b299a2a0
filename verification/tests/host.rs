//! The calls of a host, run against a server that keeps its data in memory.

use std::collections::BTreeMap;

use redis::{ErrorKind, FromRedisValue, RedisError, RedisResult, Value};
use wasi_keyvalue_redis::{
    get_many_reply, increment_reply, list_keys_reply, reply, BucketHandle, Error, Exchange,
    KeyResponse, WasiKeyValueRedis, WasiKeyValueRedisCtx, WasiKeyValueRedisCtxBuilder,
};
use wasmtime::component::ResourceTable;

/// Carries commands out on a map from keys to values.
struct Server {
    data: BTreeMap<Vec<u8>, Vec<u8>>,
    served: usize,
}

fn args(command: &redis::Cmd) -> Vec<Vec<u8>> {
    command
        .args_iter()
        .map(|arg| match arg {
            redis::Arg::Simple(bytes) => bytes.to_vec(),
            _ => panic!("unexpected argument"),
        })
        .collect()
}

fn number(bytes: &[u8]) -> Option<i64> {
    std::str::from_utf8(bytes).ok()?.parse().ok()
}

/// Tells whether the bytes before the closing bracket of a class name the byte, and what
/// follows that bracket.
fn read_class(mut list: &[u8], byte: u8) -> (bool, &[u8]) {
    let mut named = false;
    loop {
        match list {
            [] => return (named, list),
            [b'\\', escaped, rest @ ..] => {
                named |= *escaped == byte;
                list = rest;
            }
            [b']', rest @ ..] => return (named, rest),
            [first, b'-', last, rest @ ..] => {
                named |= (*first.min(last)..=*first.max(last)).contains(&byte);
                list = rest;
            }
            [single, rest @ ..] => {
                named |= *single == byte;
                list = rest;
            }
        }
    }
}

/// Matches a key with a glob-style pattern.
fn glob(pattern: &[u8], key: &[u8]) -> bool {
    match (pattern, key) {
        ([], _) => key.is_empty(),
        ([b'*', rest @ ..], _) => (0..=key.len()).any(|n| glob(rest, &key[n..])),
        (_, []) => false,
        ([b'?', rest @ ..], [_, tail @ ..]) => glob(rest, tail),
        ([b'[', b'^', list @ ..], [byte, tail @ ..]) => {
            let (named, rest) = read_class(list, *byte);
            !named && glob(rest, tail)
        }
        ([b'[', list @ ..], [byte, tail @ ..]) => {
            let (named, rest) = read_class(list, *byte);
            named && glob(rest, tail)
        }
        ([b'\\', escaped, rest @ ..], [byte, tail @ ..]) => escaped == byte && glob(rest, tail),
        ([plain, rest @ ..], [byte, tail @ ..]) => plain == byte && glob(rest, tail),
    }
}

impl Server {
    fn new() -> Server {
        Server { data: BTreeMap::new(), served: 0 }
    }

    fn value(&self, key: &[u8]) -> Value {
        match self.data.get(key) {
            Some(value) => Value::BulkString(value.clone()),
            None => Value::Nil,
        }
    }

    fn serve(&mut self, command: &redis::Cmd) -> RedisResult<Value> {
        self.served += 1;
        let args = args(command);
        let name = String::from_utf8(args[0].clone()).unwrap();
        match name.as_str() {
            "GET" => Ok(self.value(&args[1])),
            "SET" => {
                assert_eq!(args.len(), 3);
                self.data.insert(args[1].clone(), args[2].clone());
                Ok(Value::Okay)
            }
            "DEL" => {
                let mut count = 0;
                for key in &args[1..] {
                    if self.data.remove(key).is_some() {
                        count += 1;
                    }
                }
                Ok(Value::Int(count))
            }
            "EXISTS" => Ok(Value::Int(self.data.contains_key(&args[1]) as i64)),
            "INCRBY" => {
                let before = match self.data.get(&args[1]) {
                    Some(text) => number(text),
                    None => Some(0),
                };
                let sum = before.and_then(|n| n.checked_add(number(&args[2]).unwrap()));
                match sum {
                    Some(sum) => {
                        self.data.insert(args[1].clone(), sum.to_string().into_bytes());
                        Ok(Value::Int(sum))
                    }
                    None => Err(RedisError::from((ErrorKind::Extension, "not an integer"))),
                }
            }
            "MGET" => Ok(Value::Array(args[1..].iter().map(|key| self.value(key)).collect())),
            "MSET" => {
                assert_eq!(args.len() % 2, 1);
                for pair in args[1..].chunks(2) {
                    self.data.insert(pair[0].clone(), pair[1].clone());
                }
                Ok(Value::Okay)
            }
            "SCAN" => {
                assert_eq!(args[2], b"MATCH");
                assert_eq!(args[4], b"COUNT");
                let start = number(&args[1]).unwrap() as usize;
                let count = number(&args[5]).unwrap() as usize;
                let page: Vec<Value> = self
                    .data
                    .keys()
                    .skip(start)
                    .take(count)
                    .filter(|key| glob(&args[3], key))
                    .map(|key| Value::BulkString(key.clone()))
                    .collect();
                let next = if start + count < self.data.len() { start + count } else { 0 };
                Ok(Value::Array(vec![
                    Value::BulkString(next.to_string().into_bytes()),
                    Value::Array(page),
                ]))
            }
            _ => panic!("unexpected command"),
        }
    }

    fn query<T: FromRedisValue>(&mut self, command: &redis::Cmd) -> RedisResult<T> {
        let value = self.serve(command)?;
        Ok(redis::from_redis_value(value)?)
    }
}

fn make_ctx() -> WasiKeyValueRedisCtx {
    WasiKeyValueRedisCtxBuilder::new().url("redis://127.0.0.1:6379").unwrap().build().unwrap()
}

fn refused() -> RedisError {
    RedisError::from((ErrorKind::Io, "connection refused"))
}

fn text(error: Error) -> String {
    match error {
        Error::Other(text) => text,
        _ => panic!("unexpected variant"),
    }
}

fn bucket(kv: &mut WasiKeyValueRedis<'_>, name: &str) -> BucketHandle {
    kv.open(name.to_string()).unwrap()
}

fn host_get(
    kv: &mut WasiKeyValueRedis<'_>,
    server: &mut Server,
    bucket: BucketHandle,
    key: &str,
) -> Result<Option<Vec<u8>>, Error> {
    let (server, command) = kv.get(bucket, key.to_string())?.connected(Ok(server))?;
    reply(server.query(&command))
}

fn host_set(
    kv: &mut WasiKeyValueRedis<'_>,
    server: &mut Server,
    bucket: BucketHandle,
    key: &str,
    value: &[u8],
) -> Result<(), Error> {
    let call = kv.set(bucket, key.to_string(), value.to_vec())?;
    let (server, command) = call.connected(Ok(server))?;
    reply(server.query(&command))
}

fn host_delete(
    kv: &mut WasiKeyValueRedis<'_>,
    server: &mut Server,
    bucket: BucketHandle,
    key: &str,
) -> Result<(), Error> {
    let (server, command) = kv.delete(bucket, key.to_string())?.connected(Ok(server))?;
    reply(server.query(&command))
}

fn host_exists(
    kv: &mut WasiKeyValueRedis<'_>,
    server: &mut Server,
    bucket: BucketHandle,
    key: &str,
) -> Result<bool, Error> {
    let (server, command) = kv.key_exists(bucket, key.to_string())?.connected(Ok(server))?;
    reply(server.query(&command))
}

fn host_list_keys(
    kv: &mut WasiKeyValueRedis<'_>,
    server: &mut Server,
    bucket: BucketHandle,
    cursor: Option<u64>,
) -> Result<KeyResponse, Error> {
    let (server, (command, name)) = kv.list_keys(bucket, cursor)?.connected(Ok(server))?;
    list_keys_reply(name, server.query(&command))
}

fn host_increment(
    kv: &mut WasiKeyValueRedis<'_>,
    server: &mut Server,
    bucket: BucketHandle,
    key: &str,
    delta: u64,
) -> Result<u64, Error> {
    let (server, command) = kv.increment(bucket, key.to_string(), delta)?.connected(Ok(server))?;
    increment_reply(server.query(&command))
}

fn host_get_many(
    kv: &mut WasiKeyValueRedis<'_>,
    server: &mut Server,
    bucket: BucketHandle,
    keys: &[&str],
) -> Result<Vec<Option<(String, Vec<u8>)>>, Error> {
    let keys = keys.iter().map(|key| key.to_string()).collect();
    let (server, exchange) = kv.get_many(bucket, keys)?.connected(Ok(server))?;
    match exchange {
        Exchange::Query(command, keys) => get_many_reply(keys, server.query(&command)),
        Exchange::Answer(values) => Ok(values),
    }
}

fn host_set_many(
    kv: &mut WasiKeyValueRedis<'_>,
    server: &mut Server,
    bucket: BucketHandle,
    pairs: &[(&str, &[u8])],
) -> Result<(), Error> {
    let pairs = pairs.iter().map(|(key, value)| (key.to_string(), value.to_vec())).collect();
    let (server, exchange) = kv.set_many(bucket, pairs)?.connected(Ok(server))?;
    match exchange {
        Exchange::Query(command, ()) => reply(server.query(&command)),
        Exchange::Answer(()) => Ok(()),
    }
}

fn host_delete_many(
    kv: &mut WasiKeyValueRedis<'_>,
    server: &mut Server,
    bucket: BucketHandle,
    keys: &[&str],
) -> Result<(), Error> {
    let keys = keys.iter().map(|key| key.to_string()).collect();
    let (server, exchange) = kv.delete_many(bucket, keys)?.connected(Ok(server))?;
    match exchange {
        Exchange::Query(command, ()) => reply(server.query(&command)),
        Exchange::Answer(()) => Ok(()),
    }
}

#[test]
fn set_get_delete() {
    let ctx = make_ctx();
    let mut server = Server::new();
    let mut table = ResourceTable::new();
    let mut kv = WasiKeyValueRedis::new(&ctx, &mut table);

    let b = bucket(&mut kv, "");
    host_set(&mut kv, &mut server, b, "hello", b"world").unwrap();
    assert_eq!(server.data.keys().next().unwrap(), b"wasi_kv:default:hello");
    let b = bucket(&mut kv, "");
    assert_eq!(host_get(&mut kv, &mut server, b, "hello").unwrap(), Some(b"world".to_vec()));
    let b = bucket(&mut kv, "default");
    assert_eq!(host_get(&mut kv, &mut server, b, "hello").unwrap(), Some(b"world".to_vec()));
    let b = bucket(&mut kv, "");
    host_delete(&mut kv, &mut server, b, "hello").unwrap();
    let b = bucket(&mut kv, "");
    assert_eq!(host_get(&mut kv, &mut server, b, "hello").unwrap(), None);
}

#[test]
fn key_exists() {
    let ctx = make_ctx();
    let mut server = Server::new();
    let mut table = ResourceTable::new();
    let mut kv = WasiKeyValueRedis::new(&ctx, &mut table);

    let b = bucket(&mut kv, "exists_test");
    assert!(!host_exists(&mut kv, &mut server, b, "k").unwrap());
    let b = bucket(&mut kv, "exists_test");
    host_set(&mut kv, &mut server, b, "k", b"v").unwrap();
    let b = bucket(&mut kv, "exists_test");
    assert!(host_exists(&mut kv, &mut server, b, "k").unwrap());
}

#[test]
fn list_keys() {
    let ctx = make_ctx();
    let mut server = Server::new();
    let mut table = ResourceTable::new();
    let mut kv = WasiKeyValueRedis::new(&ctx, &mut table);

    let b = bucket(&mut kv, "listing");
    host_set(&mut kv, &mut server, b, "a", b"1").unwrap();
    let b = bucket(&mut kv, "listing");
    host_set(&mut kv, &mut server, b, "b", b"2").unwrap();
    let b = bucket(&mut kv, "listing");
    host_set(&mut kv, &mut server, b, "c", b"3").unwrap();

    let b = bucket(&mut kv, "listing");
    let resp = host_list_keys(&mut kv, &mut server, b, None).unwrap();
    let mut keys = resp.keys;
    keys.sort();
    assert_eq!(keys, vec!["a", "b", "c"]);
}

#[test]
fn buckets_are_isolated() {
    let ctx = make_ctx();
    let mut server = Server::new();
    let mut table = ResourceTable::new();
    let mut kv = WasiKeyValueRedis::new(&ctx, &mut table);

    let b = bucket(&mut kv, "alpha");
    host_set(&mut kv, &mut server, b, "key", b"from-alpha").unwrap();

    let b = bucket(&mut kv, "beta");
    assert_eq!(host_get(&mut kv, &mut server, b, "key").unwrap(), None);
    let b = bucket(&mut kv, "alpha");
    assert_eq!(host_get(&mut kv, &mut server, b, "key").unwrap(), Some(b"from-alpha".to_vec()));
}

#[test]
fn increment() {
    let ctx = make_ctx();
    let mut server = Server::new();
    let mut table = ResourceTable::new();
    let mut kv = WasiKeyValueRedis::new(&ctx, &mut table);

    let b = bucket(&mut kv, "counters");
    assert_eq!(host_increment(&mut kv, &mut server, b, "hits", 1).unwrap(), 1);
    let b = bucket(&mut kv, "counters");
    assert_eq!(host_increment(&mut kv, &mut server, b, "hits", 4).unwrap(), 5);
    let b = bucket(&mut kv, "counters");
    assert_eq!(host_increment(&mut kv, &mut server, b, "hits", 10).unwrap(), 15);
}

#[test]
fn batch_ops() {
    let ctx = make_ctx();
    let mut server = Server::new();
    let mut table = ResourceTable::new();
    let mut kv = WasiKeyValueRedis::new(&ctx, &mut table);

    let b = bucket(&mut kv, "batch");
    host_set_many(&mut kv, &mut server, b, &[("x", b"1"), ("y", b"2"), ("z", b"3")]).unwrap();

    let b = bucket(&mut kv, "batch");
    let results = host_get_many(&mut kv, &mut server, b, &["x", "missing", "z"]).unwrap();
    assert_eq!(results[0], Some(("x".to_string(), b"1".to_vec())));
    assert_eq!(results[1], None);
    assert_eq!(results[2], Some(("z".to_string(), b"3".to_vec())));

    let b = bucket(&mut kv, "batch");
    host_delete_many(&mut kv, &mut server, b, &["x", "y"]).unwrap();
    let b = bucket(&mut kv, "batch");
    let resp = host_list_keys(&mut kv, &mut server, b, None).unwrap();
    assert_eq!(resp.keys, vec!["z"]);
}

#[test]
fn other_keys_are_kept() {
    let ctx = make_ctx();
    let mut server = Server::new();
    let mut table = ResourceTable::new();
    let mut kv = WasiKeyValueRedis::new(&ctx, &mut table);
    let b = bucket(&mut kv, "b");

    host_set(&mut kv, &mut server, b, "kept", b"1").unwrap();
    host_set(&mut kv, &mut server, b, "set", b"2").unwrap();
    host_delete(&mut kv, &mut server, b, "set").unwrap();
    host_increment(&mut kv, &mut server, b, "count", 3).unwrap();
    assert_eq!(host_get(&mut kv, &mut server, b, "kept").unwrap(), Some(b"1".to_vec()));
    assert_eq!(host_get(&mut kv, &mut server, b, "count").unwrap(), Some(b"3".to_vec()));
}

#[test]
fn nested_bucket_names_share_keys() {
    let ctx = make_ctx();
    let mut server = Server::new();
    let mut table = ResourceTable::new();
    let mut kv = WasiKeyValueRedis::new(&ctx, &mut table);

    let outer = bucket(&mut kv, "a");
    let nested = bucket(&mut kv, "a:b");
    host_set(&mut kv, &mut server, nested, "c", b"1").unwrap();
    assert_eq!(host_get(&mut kv, &mut server, outer, "b:c").unwrap(), Some(b"1".to_vec()));
}

#[test]
fn reads_change_nothing() {
    let ctx = make_ctx();
    let mut server = Server::new();
    let mut table = ResourceTable::new();
    let mut kv = WasiKeyValueRedis::new(&ctx, &mut table);
    let b = bucket(&mut kv, "b");
    host_set(&mut kv, &mut server, b, "k", b"v").unwrap();

    let before = server.data.clone();
    host_get(&mut kv, &mut server, b, "k").unwrap();
    host_exists(&mut kv, &mut server, b, "k").unwrap();
    host_get_many(&mut kv, &mut server, b, &["k", "l"]).unwrap();
    host_list_keys(&mut kv, &mut server, b, None).unwrap();
    assert_eq!(server.data, before);
}

#[test]
fn last_pair_of_a_batch_wins() {
    let ctx = make_ctx();
    let mut server = Server::new();
    let mut table = ResourceTable::new();
    let mut kv = WasiKeyValueRedis::new(&ctx, &mut table);
    let b = bucket(&mut kv, "b");
    let other = bucket(&mut kv, "other");
    host_set(&mut kv, &mut server, other, "k", b"other").unwrap();

    host_set_many(&mut kv, &mut server, b, &[("k", b"1"), ("l", b"2"), ("k", b"3")]).unwrap();
    assert_eq!(host_get(&mut kv, &mut server, b, "k").unwrap(), Some(b"3".to_vec()));
    assert_eq!(host_get(&mut kv, &mut server, b, "l").unwrap(), Some(b"2".to_vec()));
    host_delete_many(&mut kv, &mut server, b, &["k", "absent"]).unwrap();
    assert_eq!(host_get(&mut kv, &mut server, b, "k").unwrap(), None);
    assert_eq!(host_get(&mut kv, &mut server, b, "l").unwrap(), Some(b"2".to_vec()));
    assert_eq!(host_get(&mut kv, &mut server, other, "k").unwrap(), Some(b"other".to_vec()));
}

#[test]
fn empty_batches_send_nothing() {
    let ctx = make_ctx();
    let mut server = Server::new();
    let mut table = ResourceTable::new();
    let mut kv = WasiKeyValueRedis::new(&ctx, &mut table);
    let b = bucket(&mut kv, "b");

    assert_eq!(host_get_many(&mut kv, &mut server, b, &[]).unwrap(), vec![]);
    host_set_many(&mut kv, &mut server, b, &[]).unwrap();
    host_delete_many(&mut kv, &mut server, b, &[]).unwrap();
    assert_eq!(server.served, 0);
}

#[test]
fn empty_batch_still_needs_a_connection() {
    let ctx = make_ctx();
    let mut table = ResourceTable::new();
    let mut kv = WasiKeyValueRedis::new(&ctx, &mut table);
    let b = bucket(&mut kv, "b");

    let call = kv.get_many(b, vec![]).unwrap();
    let outcome: Result<((), _), Error> = call.connected(Err(refused()));
    assert_eq!(text(outcome.err().unwrap()), "connection refused - Io");
}

#[test]
fn failed_connection_ends_the_call() {
    let ctx = make_ctx();
    let mut table = ResourceTable::new();
    let mut kv = WasiKeyValueRedis::new(&ctx, &mut table);
    let b = bucket(&mut kv, "b");

    let call = kv.get(b, "k".to_string()).unwrap();
    let outcome: Result<((), _), Error> = call.connected(Err(refused()));
    assert_eq!(text(outcome.err().unwrap()), "connection refused - Io");
}

#[test]
fn failed_replies_are_reported() {
    assert_eq!(text(reply::<()>(Err(refused())).err().unwrap()), "connection refused - Io");
    assert_eq!(text(increment_reply(Err(refused())).err().unwrap()), "connection refused - Io");
    assert_eq!(
        text(list_keys_reply("b".to_string(), Err(refused())).err().unwrap()),
        "connection refused - Io"
    );
    assert_eq!(
        text(get_many_reply(vec!["k".to_string()], Err(refused())).err().unwrap()),
        "connection refused - Io"
    );
}

#[test]
fn refused_increment_is_reported() {
    let ctx = make_ctx();
    let mut server = Server::new();
    let mut table = ResourceTable::new();
    let mut kv = WasiKeyValueRedis::new(&ctx, &mut table);
    let b = bucket(&mut kv, "b");

    host_set(&mut kv, &mut server, b, "k", b"text").unwrap();
    let error = host_increment(&mut kv, &mut server, b, "k", 1).err().unwrap();
    assert_eq!(text(error), "not an integer - Extension");
}

#[test]
fn increments_keep_their_bits() {
    let ctx = make_ctx();
    let mut server = Server::new();
    let mut table = ResourceTable::new();
    let mut kv = WasiKeyValueRedis::new(&ctx, &mut table);
    let b = bucket(&mut kv, "b");

    let largest = i64::MAX as u64;
    assert_eq!(host_increment(&mut kv, &mut server, b, "up", largest).unwrap(), largest);
    assert_eq!(host_increment(&mut kv, &mut server, b, "down", u64::MAX).unwrap(), u64::MAX);
    assert_eq!(host_get(&mut kv, &mut server, b, "down").unwrap(), Some(b"-1".to_vec()));
    assert_eq!(host_increment(&mut kv, &mut server, b, "down", 1).unwrap(), 0);
    assert_eq!(host_increment(&mut kv, &mut server, b, "half", 1 << 63).unwrap(), 1 << 63);
}

#[test]
fn listing_goes_on_where_it_stopped() {
    let ctx = make_ctx();
    let mut server = Server::new();
    let mut table = ResourceTable::new();
    let mut kv = WasiKeyValueRedis::new(&ctx, &mut table);
    let b = bucket(&mut kv, "pages");
    for i in 0..250 {
        host_set(&mut kv, &mut server, b, &format!("k{:03}", i), b"v").unwrap();
    }

    let first = host_list_keys(&mut kv, &mut server, b, None).unwrap();
    assert_eq!(first.keys.len(), 100);
    assert_eq!(first.cursor, Some(100));
    let second = host_list_keys(&mut kv, &mut server, b, first.cursor).unwrap();
    assert_eq!(second.keys[0], "k100");
    assert_eq!(second.cursor, Some(200));
    let third = host_list_keys(&mut kv, &mut server, b, second.cursor).unwrap();
    assert_eq!(third.keys.len(), 50);
    assert_eq!(third.cursor, None);
    for key in &third.keys {
        assert!(host_exists(&mut kv, &mut server, b, key).unwrap());
    }
}

#[test]
fn server_reads_patterns() {
    assert!(glob(b"h?llo", b"hallo") && !glob(b"h?llo", b"hllo"));
    assert!(glob(b"h*llo", b"heeeello") && glob(b"h*", b"h"));
    assert!(glob(b"h[ae]llo", b"hello") && !glob(b"h[ae]llo", b"hillo"));
    assert!(glob(b"h[^e]llo", b"hallo") && !glob(b"h[^e]llo", b"hello"));
    assert!(glob(b"h[a-b]llo", b"hbllo") && !glob(b"h[a-b]llo", b"hcllo"));
    assert!(glob(b"h\\*llo", b"h*llo") && !glob(b"h\\*llo", b"hallo"));
}

#[test]
fn listing_gives_no_key_of_another_namespace() {
    let ctx = make_ctx();
    let mut server = Server::new();
    let mut table = ResourceTable::new();
    let mut kv = WasiKeyValueRedis::new(&ctx, &mut table);
    let other = bucket(&mut kv, "ab");
    host_set(&mut kv, &mut server, other, "k", b"v").unwrap();
    assert_eq!(server.data.keys().next().unwrap(), b"wasi_kv:ab:k");

    for name in ["a*", "a?", "a[b]", "[^b]b", "*", "a", "b", "a\\b"] {
        let b = bucket(&mut kv, name);
        let response = host_list_keys(&mut kv, &mut server, b, None).unwrap();
        assert_eq!(response.keys.len(), 0);
        assert_eq!(response.cursor, None);
    }
}

#[test]
fn every_bucket_lists_its_own_keys() {
    let ctx = make_ctx();
    let mut server = Server::new();
    let mut table = ResourceTable::new();
    let mut kv = WasiKeyValueRedis::new(&ctx, &mut table);
    let names = ["a*", "a[b]", "a\\", "\\", "[", "]", "a?", "ab", "^-", "b\u{fc}*\u{1f511}"];
    for name in names {
        let b = bucket(&mut kv, name);
        host_set(&mut kv, &mut server, b, &format!("in {}", name), b"v").unwrap();
        host_set(&mut kv, &mut server, b, "", b"v").unwrap();
    }

    for name in names {
        let b = bucket(&mut kv, name);
        let mut keys = host_list_keys(&mut kv, &mut server, b, None).unwrap().keys;
        keys.sort();
        assert_eq!(keys, vec!["".to_string(), format!("in {}", name)]);
    }
}

#[test]
fn whole_listing_is_the_bucket() {
    let ctx = make_ctx();
    let mut server = Server::new();
    let mut table = ResourceTable::new();
    let mut kv = WasiKeyValueRedis::new(&ctx, &mut table);
    let b = bucket(&mut kv, "p*");
    let other = bucket(&mut kv, "pages");
    let mut expected = Vec::new();
    for i in 0..150 {
        let key = format!("k{:03}", i);
        host_set(&mut kv, &mut server, b, &key, b"v").unwrap();
        host_set(&mut kv, &mut server, other, &key, b"v").unwrap();
        expected.push(key);
    }

    let mut listed = Vec::new();
    let mut cursor = None;
    let mut pages = 0;
    loop {
        let response = host_list_keys(&mut kv, &mut server, b, cursor).unwrap();
        listed.extend(response.keys);
        cursor = response.cursor;
        pages += 1;
        if cursor.is_none() {
            break;
        }
    }
    listed.sort();
    assert_eq!(pages, 3);
    assert_eq!(listed, expected);
}

#[test]
fn listed_keys_lose_the_prefix_of_the_bucket_only() {
    let encoded = vec!["wasi_kv:b:k".to_string(), "wasi_kv:other:k".to_string()];
    let response = list_keys_reply("b".to_string(), Ok((7, encoded))).unwrap();
    assert_eq!(response.keys, vec!["k", "wasi_kv:other:k"]);
    assert_eq!(response.cursor, Some(7));
    let response = list_keys_reply("b".to_string(), Ok((0, vec![]))).unwrap();
    assert_eq!(response.keys.len(), 0);
    assert_eq!(response.cursor, None);
}

#[test]
fn replies_pair_with_keys_as_far_as_both_go() {
    let keys = vec!["a".to_string(), "b".to_string()];
    let values = get_many_reply(keys, Ok(vec![Some(vec![1]), None, Some(vec![3])])).unwrap();
    assert_eq!(values, vec![Some(("a".to_string(), vec![1])), None]);
    let keys = vec!["a".to_string(), "b".to_string()];
    let values = get_many_reply(keys, Ok(vec![Some(vec![1])])).unwrap();
    assert_eq!(values, vec![Some(("a".to_string(), vec![1]))]);
}

fn sent(command: &redis::Cmd) -> Vec<String> {
    args(command).into_iter().map(|arg| String::from_utf8(arg).unwrap()).collect()
}

#[test]
fn commands_are_spelled_out() {
    let ctx = make_ctx();
    let mut table = ResourceTable::new();
    let mut kv = WasiKeyValueRedis::new(&ctx, &mut table);
    let b = bucket(&mut kv, "b");
    let k = || "k".to_string();

    let ((), command) = kv.get(b, k()).unwrap().connected(Ok(())).unwrap();
    assert_eq!(sent(&command), vec!["GET", "wasi_kv:b:k"]);
    let ((), command) = kv.set(b, k(), b"v w".to_vec()).unwrap().connected(Ok(())).unwrap();
    assert_eq!(sent(&command), vec!["SET", "wasi_kv:b:k", "v w"]);
    let ((), command) = kv.delete(b, k()).unwrap().connected(Ok(())).unwrap();
    assert_eq!(sent(&command), vec!["DEL", "wasi_kv:b:k"]);
    let ((), command) = kv.key_exists(b, k()).unwrap().connected(Ok(())).unwrap();
    assert_eq!(sent(&command), vec!["EXISTS", "wasi_kv:b:k"]);
    let ((), command) = kv.increment(b, k(), 1205).unwrap().connected(Ok(())).unwrap();
    assert_eq!(sent(&command), vec!["INCRBY", "wasi_kv:b:k", "1205"]);
    let ((), command) = kv.increment(b, k(), u64::MAX - 41).unwrap().connected(Ok(())).unwrap();
    assert_eq!(sent(&command), vec!["INCRBY", "wasi_kv:b:k", "-42"]);
    let ((), (command, name)) = kv.list_keys(b, Some(u64::MAX)).unwrap().connected(Ok(())).unwrap();
    assert_eq!(
        sent(&command),
        vec!["SCAN", "18446744073709551615", "MATCH", "wasi_kv:b:*", "COUNT", "100"]
    );
    assert_eq!(name, "b");
    let ((), (command, _)) = kv.list_keys(b, None).unwrap().connected(Ok(())).unwrap();
    assert_eq!(sent(&command)[1], "0");
    for (name, pattern) in [
        ("a*", "wasi_kv:a\\*:*"),
        ("a[b]", "wasi_kv:a\\[b\\]:*"),
        ("a\\", "wasi_kv:a\\\\:*"),
    ] {
        let b = bucket(&mut kv, name);
        let ((), (command, asked)) = kv.list_keys(b, None).unwrap().connected(Ok(())).unwrap();
        assert_eq!(sent(&command)[3], pattern);
        assert_eq!(asked, name);
    }
}

#[test]
fn batch_commands_are_spelled_out() {
    let ctx = make_ctx();
    let mut table = ResourceTable::new();
    let mut kv = WasiKeyValueRedis::new(&ctx, &mut table);
    let b = bucket(&mut kv, "b");
    let keys = || vec!["k".to_string(), "l".to_string()];

    let ((), exchange) = kv.get_many(b, keys()).unwrap().connected(Ok(())).unwrap();
    match exchange {
        Exchange::Query(command, asked) => {
            assert_eq!(sent(&command), vec!["MGET", "wasi_kv:b:k", "wasi_kv:b:l"]);
            assert_eq!(asked, keys());
        }
        Exchange::Answer(_) => panic!("nothing is sent"),
    }
    let pairs = vec![("k".to_string(), b"1".to_vec()), ("l".to_string(), vec![])];
    let ((), exchange) = kv.set_many(b, pairs).unwrap().connected(Ok(())).unwrap();
    match exchange {
        Exchange::Query(command, ()) => {
            assert_eq!(sent(&command), vec!["MSET", "wasi_kv:b:k", "1", "wasi_kv:b:l", ""]);
        }
        Exchange::Answer(()) => panic!("nothing is sent"),
    }
    let ((), exchange) = kv.delete_many(b, keys()).unwrap().connected(Ok(())).unwrap();
    match exchange {
        Exchange::Query(command, ()) => {
            assert_eq!(sent(&command), vec!["DEL", "wasi_kv:b:k", "wasi_kv:b:l"]);
        }
        Exchange::Answer(()) => panic!("nothing is sent"),
    }
}
