//! The Redis commands of the library, and what they carry.

use vstd::prelude::*;
use vstd::utf8::encode_utf8;

verus! {

/// A command on its way to Redis.
#[verifier::external_type_specification]
#[verifier::external_body]
pub struct ExCmd(redis::Cmd);

/// The arguments of a command, its name first, each as the bytes that are sent.
pub uninterp spec fn cmd_args(command: redis::Cmd) -> Seq<Seq<u8>>;

/// A natural number in decimal digits, without leading zeros.
pub open spec fn decimal(n: nat) -> Seq<u8>
    decreases n,
{
    if n < 10 {
        seq![(48 + n) as u8]
    } else {
        decimal(n / 10).push((48 + n % 10) as u8)
    }
}

/// An integer in decimal digits, with a minus sign where it is negative.
pub open spec fn signed_decimal(n: int) -> Seq<u8> {
    if n < 0 {
        seq![45u8] + decimal((-n) as nat)
    } else {
        decimal(n as nat)
    }
}

/// One argument for each text.
pub open spec fn text_args(texts: Seq<Seq<char>>) -> Seq<Seq<u8>> {
    Seq::new(texts.len(), |i: int| encode_utf8(texts[i]))
}

/// Two arguments for each pair: the text, then the bytes.
pub open spec fn pair_args(pairs: Seq<(Seq<char>, Seq<u8>)>) -> Seq<Seq<u8>> {
    Seq::new(
        2 * pairs.len(),
        |i: int|
            if i % 2 == 0 {
                encode_utf8(pairs[i / 2].0)
            } else {
                pairs[i / 2].1
            },
    )
}

/// `GET key`.
pub open spec fn get_command(key: Seq<char>) -> Seq<Seq<u8>> {
    seq![encode_utf8("GET"@), encode_utf8(key)]
}

/// `SET key value`.
pub open spec fn set_command(key: Seq<char>, value: Seq<u8>) -> Seq<Seq<u8>> {
    seq![encode_utf8("SET"@), encode_utf8(key), value]
}

/// `DEL key ...`.
pub open spec fn del_command(keys: Seq<Seq<char>>) -> Seq<Seq<u8>> {
    seq![encode_utf8("DEL"@)] + text_args(keys)
}

/// `EXISTS key`.
pub open spec fn exists_command(key: Seq<char>) -> Seq<Seq<u8>> {
    seq![encode_utf8("EXISTS"@), encode_utf8(key)]
}

/// `INCRBY key delta`.
pub open spec fn incrby_command(key: Seq<char>, delta: int) -> Seq<Seq<u8>> {
    seq![encode_utf8("INCRBY"@), encode_utf8(key), signed_decimal(delta)]
}

/// `SCAN cursor MATCH pattern COUNT count`.
pub open spec fn scan_command(cursor: u64, pattern: Seq<char>, count: u64) -> Seq<Seq<u8>> {
    seq![
        encode_utf8("SCAN"@),
        decimal(cursor as nat),
        encode_utf8("MATCH"@),
        encode_utf8(pattern),
        encode_utf8("COUNT"@),
        decimal(count as nat),
    ]
}

/// `MGET key ...`.
pub open spec fn mget_command(keys: Seq<Seq<char>>) -> Seq<Seq<u8>> {
    seq![encode_utf8("MGET"@)] + text_args(keys)
}

/// `MSET key value ...`.
pub open spec fn mset_command(pairs: Seq<(Seq<char>, Seq<u8>)>) -> Seq<Seq<u8>> {
    seq![encode_utf8("MSET"@)] + pair_args(pairs)
}

/// `redis::cmd`: the command of this name, without further arguments.
#[verifier::external_body]
fn named(name: &str) -> (command: redis::Cmd)
    ensures
        cmd_args(command) == seq![encode_utf8(name@)],
{
    redis::cmd(name)
}

/// `Cmd::arg` of a text: adds one argument, the bytes of the text.
#[verifier::external_body]
fn arg_text(command: &mut redis::Cmd, text: &str)
    ensures
        cmd_args(*final(command)) == cmd_args(*old(command)).push(encode_utf8(text@)),
{
    command.arg(text);
}

/// `Cmd::arg` of a `u64`: adds one argument, the number in decimal digits.
#[verifier::external_body]
fn arg_number(command: &mut redis::Cmd, number: u64)
    ensures
        cmd_args(*final(command)) == cmd_args(*old(command)).push(decimal(number as nat)),
{
    command.arg(number);
}

/// `Cmd::arg` of a vector of texts: adds one argument for each of them, in order.
#[verifier::external_body]
fn arg_texts(command: &mut redis::Cmd, texts: &Vec<String>)
    ensures
        cmd_args(*final(command)) == cmd_args(*old(command)) + text_args(texts.deep_view()),
{
    command.arg(texts);
}

/// `Cmd::arg` of a vector of pairs: adds two arguments for each of them, in
/// order, the bytes of the text and the bytes beside it.
#[verifier::external_body]
fn arg_pairs(command: &mut redis::Cmd, pairs: Vec<(String, Vec<u8>)>)
    ensures
        cmd_args(*final(command)) == cmd_args(*old(command)) + pair_args(pairs.deep_view()),
{
    command.arg(pairs);
}

/// `Cmd::get`: the command `GET key`.
#[verifier::external_body]
pub(crate) fn get(key: &str) -> (command: redis::Cmd)
    ensures
        cmd_args(command) == get_command(key@),
{
    redis::Cmd::get(key)
}

/// `Cmd::set`: the command `SET key value`.
#[verifier::external_body]
pub(crate) fn set(key: &str, value: Vec<u8>) -> (command: redis::Cmd)
    ensures
        cmd_args(command) == set_command(key@, value@),
{
    redis::Cmd::set(key, value)
}

/// `Cmd::del` of a vector of keys: the command `DEL` with each of them, in order.
#[verifier::external_body]
pub(crate) fn del(keys: &Vec<String>) -> (command: redis::Cmd)
    ensures
        cmd_args(command) == del_command(keys.deep_view()),
{
    redis::Cmd::del(keys)
}

/// `Cmd::exists`: the command `EXISTS key`.
#[verifier::external_body]
pub(crate) fn key_exists(key: &str) -> (command: redis::Cmd)
    ensures
        cmd_args(command) == exists_command(key@),
{
    redis::Cmd::exists(key)
}

/// `Cmd::incr` by an `i64`: the command `INCRBY key delta`, the number in
/// decimal digits.
#[verifier::external_body]
pub(crate) fn incr(key: &str, delta: i64) -> (command: redis::Cmd)
    ensures
        cmd_args(command) == incrby_command(key@, delta as int),
{
    redis::Cmd::incr(key, delta)
}

/// Makes `SCAN cursor MATCH pattern COUNT count`.
pub(crate) fn scan(cursor: u64, pattern: &str, count: u64) -> (command: redis::Cmd)
    ensures
        cmd_args(command) == scan_command(cursor, pattern@, count),
{
    let mut command = named("SCAN");
    arg_number(&mut command, cursor);
    arg_text(&mut command, "MATCH");
    arg_text(&mut command, pattern);
    arg_text(&mut command, "COUNT");
    arg_number(&mut command, count);
    assert(cmd_args(command) =~= scan_command(cursor, pattern@, count));
    command
}

/// Makes `MGET` with each of the keys.
pub(crate) fn mget(keys: &Vec<String>) -> (command: redis::Cmd)
    ensures
        cmd_args(command) == mget_command(keys.deep_view()),
{
    let mut command = named("MGET");
    arg_texts(&mut command, keys);
    command
}

/// Makes `MSET` with each of the pairs.
pub(crate) fn mset(pairs: Vec<(String, Vec<u8>)>) -> (command: redis::Cmd)
    ensures
        cmd_args(command) == mset_command(pairs.deep_view()),
{
    let mut command = named("MSET");
    arg_pairs(&mut command, pairs);
    command
}

/// The number that decimal digits stand for.
pub open spec fn digits_value(digits: Seq<u8>) -> int
    decreases digits.len(),
{
    if digits.len() == 0 {
        0
    } else {
        10 * digits_value(digits.drop_last()) + (digits.last() - 48)
    }
}

/// Law: a number is spelled in digits that stand for it, without leading zeros.
pub proof fn law_decimal_stands_for_the_number(n: nat)
    ensures
        digits_value(decimal(n)) == n,
        forall|i: int| 0 <= i < decimal(n).len() ==> 48 <= #[trigger] decimal(n)[i] <= 57,
        decimal(n).len() > 0,
        decimal(n)[0] == 48 ==> n == 0,
    decreases n,
{
    if n < 10 {
        assert(decimal(n).drop_last() =~= seq![]);
        assert(digits_value(decimal(n).drop_last()) == 0);
    } else {
        law_decimal_stands_for_the_number(n / 10);
        assert(decimal(n).drop_last() =~= decimal(n / 10));
    }
}

/// Law: a negative number is spelled as a minus sign and the digits of its opposite, and
/// any other as its digits.
pub proof fn law_sign_is_spelled(n: nat)
    ensures
        signed_decimal(n as int) == decimal(n),
        n > 0 ==> signed_decimal(-(n as int)) == seq![45u8] + decimal(n),
{
}

} // verus!
