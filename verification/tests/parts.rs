//! Keys, buckets, errors and the context, each on its own.

use redis::{ErrorKind, RedisError};
use wasi_keyvalue_redis::{
    bucket_pattern, encode_key, strip_prefix, BucketHandle, Error, StoreError, WasiKeyValueRedis,
    WasiKeyValueRedisCtx, WasiKeyValueRedisCtxBuilder, KEY_PREFIX,
};
use wasmtime::component::{Resource, ResourceTable, ResourceTableError};

fn make_ctx() -> WasiKeyValueRedisCtx {
    let client = redis::Client::open("redis://127.0.0.1:6379").unwrap();
    WasiKeyValueRedisCtxBuilder::new().client(client).build().unwrap()
}

fn text(error: Error) -> String {
    match error {
        Error::Other(text) => text,
        _ => panic!("unexpected variant"),
    }
}

#[test]
fn keys_are_encoded() {
    assert_eq!(KEY_PREFIX, "wasi_kv");
    assert_eq!(encode_key("logs", "a"), "wasi_kv:logs:a");
    assert_eq!(encode_key("cache", ""), "wasi_kv:cache:");
    assert_eq!(encode_key("", "a:b"), "wasi_kv::a:b");
    assert_eq!(encode_key("b\u{fc}cket", "\u{1f511}"), "wasi_kv:b\u{fc}cket:\u{1f511}");
}

#[test]
fn patterns_end_in_a_star() {
    assert_eq!(bucket_pattern("logs"), "wasi_kv:logs:*");
    assert_eq!(bucket_pattern("logs"), encode_key("logs", "*"));
}

#[test]
fn patterns_take_names_as_they_stand() {
    assert_eq!(bucket_pattern("a*"), "wasi_kv:a\\*:*");
    assert_eq!(bucket_pattern("a?b"), "wasi_kv:a\\?b:*");
    assert_eq!(bucket_pattern("a[b]"), "wasi_kv:a\\[b\\]:*");
    assert_eq!(bucket_pattern("a\\"), "wasi_kv:a\\\\:*");
    assert_eq!(bucket_pattern("a:b-^"), "wasi_kv:a:b-^:*");
    assert_eq!(bucket_pattern("b\u{fc}*\u{1f511}"), "wasi_kv:b\u{fc}\\*\u{1f511}:*");
}

#[test]
fn stripping_undoes_encoding() {
    assert_eq!(strip_prefix("logs", &encode_key("logs", "a:b")), "a:b");
    assert_eq!(strip_prefix("b\u{fc}", &encode_key("b\u{fc}", "\u{1f511}")), "\u{1f511}");
    assert_eq!(strip_prefix("logs", "wasi_kv:logs:"), "");
    assert_eq!(strip_prefix("a", "wasi_kv:a:wasi_kv:a:k"), "wasi_kv:a:k");
}

#[test]
fn foreign_keys_are_not_stripped() {
    assert_eq!(strip_prefix("logs", "wasi_kv:cache:a"), "wasi_kv:cache:a");
    assert_eq!(strip_prefix("logs", "wasi_kv:logs"), "wasi_kv:logs");
    assert_eq!(strip_prefix("logs", ""), "");
}

#[test]
fn keys_and_buckets_are_told_apart() {
    assert_ne!(encode_key("b", "k"), encode_key("b", "l"));
    assert_ne!(encode_key("b", "k"), encode_key("c", "k"));
    assert_ne!(encode_key("ab", "c"), encode_key("a", "bc"));
    assert_eq!(encode_key("a:b", "c"), encode_key("a", "b:c"));
}

#[test]
fn opened_buckets_have_their_own_handles() {
    let ctx = make_ctx();
    let mut table = ResourceTable::new();
    let mut kv = WasiKeyValueRedis::new(&ctx, &mut table);
    let first = kv.open("a".to_string()).unwrap();
    let second = kv.open("b".to_string()).unwrap();
    assert_ne!(first, second);
    assert!(kv.get(first, "k".to_string()).is_ok());

    kv.drop(first).unwrap();
    assert!(kv.get(second, "k".to_string()).is_ok());
    let error = kv.get(first, "k".to_string()).err().unwrap();
    assert_eq!(text(error), "resource not present");
    assert!(matches!(kv.drop(first), Err(ResourceTableError::NotPresent)));

    let third = kv.open("c".to_string()).unwrap();
    assert_eq!(third, first);
    let ((), (_, name)) = kv.list_keys(third, None).unwrap().connected(Ok(())).unwrap();
    assert_eq!(name, "c");
    kv.drop(second).unwrap();
    kv.drop(third).unwrap();
    assert!(table.is_empty());
}

#[test]
fn every_call_needs_its_bucket() {
    let ctx = make_ctx();
    let mut table = ResourceTable::new();
    let mut kv = WasiKeyValueRedis::new(&ctx, &mut table);
    let b = BucketHandle { rep: 3 };
    let k = || "k".to_string();
    let missing = "resource not present";
    assert_eq!(text(kv.get(b, k()).err().unwrap()), missing);
    assert_eq!(text(kv.set(b, k(), vec![]).err().unwrap()), missing);
    assert_eq!(text(kv.delete(b, k()).err().unwrap()), missing);
    assert_eq!(text(kv.key_exists(b, k()).err().unwrap()), missing);
    assert_eq!(text(kv.list_keys(b, None).err().unwrap()), missing);
    assert_eq!(text(kv.increment(b, k(), 1).err().unwrap()), missing);
    assert_eq!(text(kv.get_many(b, vec![]).err().unwrap()), missing);
    assert_eq!(text(kv.set_many(b, vec![]).err().unwrap()), missing);
    assert_eq!(text(kv.delete_many(b, vec![]).err().unwrap()), missing);
}

#[test]
fn other_resources_are_no_buckets() {
    let ctx = make_ctx();
    let mut table = ResourceTable::new();
    let other = table.push(7u8).unwrap();
    let mut kv = WasiKeyValueRedis::new(&ctx, &mut table);
    let handle = BucketHandle { rep: other.rep() };
    let error = kv.get(handle, "k".to_string()).err().unwrap();
    assert_eq!(text(error), "resource is of another type");
    assert!(matches!(kv.drop(handle), Err(ResourceTableError::WrongType)));
    assert!(matches!(kv.drop(handle), Err(ResourceTableError::NotPresent)));
}

#[test]
fn full_table_refuses_a_bucket() {
    let ctx = make_ctx();
    let mut table = ResourceTable::new();
    table.set_max_capacity(1);
    let mut kv = WasiKeyValueRedis::new(&ctx, &mut table);
    let first = kv.open("a".to_string()).unwrap();
    let error = kv.open("b".to_string()).err().unwrap();
    assert_eq!(text(error), "resource table has no free keys");
    kv.drop(first).unwrap();
    assert!(kv.open("b".to_string()).is_ok());
}

#[test]
fn bucket_with_children_stays_open() {
    let ctx = make_ctx();
    let mut table = ResourceTable::new();
    let bucket = WasiKeyValueRedis::new(&ctx, &mut table).open("a".to_string()).unwrap();
    let parent = Resource::<wasi_keyvalue_redis::Bucket>::new_own(bucket.rep);
    let child = table.push_child(7u8, &parent).unwrap();
    let mut kv = WasiKeyValueRedis::new(&ctx, &mut table);
    assert!(matches!(kv.drop(bucket), Err(ResourceTableError::HasChildren)));
    assert!(kv.get(bucket, "k".to_string()).is_ok());
    table.delete(child).unwrap();
    assert!(WasiKeyValueRedis::new(&ctx, &mut table).drop(bucket).is_ok());
}

#[test]
fn errors_carry_their_text() {
    assert_eq!(text(Error::from(ResourceTableError::HasChildren)), "resource has children");
    let error = RedisError::from((ErrorKind::Client, "broken", "badly".to_string()));
    assert_eq!(text(Error::from(error)), "broken - Client: badly");
}

#[test]
fn errors_convert_variant_for_variant() {
    let ctx = make_ctx();
    let mut table = ResourceTable::new();
    let mut kv = WasiKeyValueRedis::new(&ctx, &mut table);
    assert!(matches!(kv.convert_error(Error::NoSuchStore), StoreError::NoSuchStore));
    assert!(matches!(kv.convert_error(Error::AccessDenied), StoreError::AccessDenied));
    match kv.convert_error(Error::Other("why".to_string())) {
        StoreError::Other(text) => assert_eq!(text, "why"),
        _ => panic!("unexpected variant"),
    }
}

#[test]
fn context_needs_a_url() {
    let error = WasiKeyValueRedisCtxBuilder::new().build().err().unwrap();
    assert_eq!(text(error), "no Redis URL configured; call url() or client()");
    assert!(WasiKeyValueRedisCtxBuilder::default().build().is_err());
}

#[test]
fn context_keeps_the_last_client() {
    let client = redis::Client::open("redis://first:1").unwrap();
    let builder = WasiKeyValueRedisCtxBuilder::new().client(client);
    let ctx = builder.url("redis://second:2").unwrap().build().unwrap();
    let addr = ctx.client().get_connection_info().addr().to_string();
    assert_eq!(addr, "second:2");
}

#[test]
fn bad_url_is_refused() {
    let error = WasiKeyValueRedisCtxBuilder::new().url("http://127.0.0.1").err().unwrap();
    assert_eq!(error.kind(), ErrorKind::InvalidClientConfig);
    assert_eq!(error.to_string(), "Redis URL did not parse - InvalidClientConfig");
    let error = WasiKeyValueRedisCtxBuilder::new().url("redis://h/x").err().unwrap();
    assert_eq!(error.kind(), ErrorKind::InvalidClientConfig);
    assert_eq!(error.to_string(), "Invalid database number - InvalidClientConfig");
}

fn configured(url: &str) -> Result<WasiKeyValueRedisCtx, Error> {
    WasiKeyValueRedisCtxBuilder::new().url(url)?.build()
}

#[test]
fn errors_of_the_builder_pass_through() {
    assert!(configured("redis://127.0.0.1:6379").is_ok());
    let error = configured("redis://h/x").err().unwrap();
    assert_eq!(text(error), "Invalid database number - InvalidClientConfig");
}

fn opened(url: &str) -> Result<WasiKeyValueRedisCtxBuilder, Box<dyn std::error::Error>> {
    Ok(WasiKeyValueRedisCtxBuilder::new().url(url)?)
}

#[test]
fn refused_url_is_an_error_of_the_application() {
    assert!(opened("redis://127.0.0.1:6379").is_ok());
    let error = opened("redis://h/x").err().unwrap().downcast::<RedisError>().unwrap();
    assert_eq!(error.kind(), ErrorKind::InvalidClientConfig);
}
