//! Glob-style patterns, as Redis matches keys with them.

use vstd::prelude::*;
use vstd::string::*;
use vstd::utf8::*;

verus! {

/// A character that does not stand for itself in a pattern.
pub open spec fn is_special(c: char) -> bool {
    c == '*' || c == '?' || c == '[' || c == ']' || c == '\\'
}

/// The pattern of a text and nothing else: the text, with a backslash before each
/// special character.
pub open spec fn literal(text: Seq<char>) -> Seq<char>
    decreases text.len(),
{
    if text.len() == 0 {
        seq![]
    } else if is_special(text[0]) {
        seq!['\\', text[0]] + literal(text.drop_first())
    } else {
        seq![text[0]] + literal(text.drop_first())
    }
}

/// What a class lists, given what follows its bracket: all of it, or what comes behind a
/// caret.
pub open spec fn listed(class: Seq<u8>) -> Seq<u8> {
    if class.len() > 0 && class[0] == '^' as u8 {
        class.skip(1)
    } else {
        class
    }
}

/// The pattern behind the bracket that closes a list, or nothing where none does.
pub open spec fn after_list(list: Seq<u8>) -> Seq<u8>
    decreases list.len(),
{
    if list.len() == 0 {
        list
    } else if list[0] == '\\' as u8 && list.len() >= 2 {
        after_list(list.skip(2))
    } else if list[0] == ']' as u8 {
        list.skip(1)
    } else if list.len() >= 3 && list[1] == '-' as u8 {
        after_list(list.skip(3))
    } else {
        after_list(list.skip(1))
    }
}

/// A list names the byte before the bracket that closes it: by itself, behind a
/// backslash, or within a range.
pub open spec fn names(list: Seq<u8>, byte: u8) -> bool
    decreases list.len(),
{
    if list.len() == 0 {
        false
    } else if list[0] == '\\' as u8 && list.len() >= 2 {
        list[1] == byte || names(list.skip(2), byte)
    } else if list[0] == ']' as u8 {
        false
    } else if list.len() >= 3 && list[1] == '-' as u8 {
        ||| list[0] <= byte <= list[2]
        ||| list[2] <= byte <= list[0]
        ||| names(list.skip(3), byte)
    } else {
        list[0] == byte || names(list.skip(1), byte)
    }
}

/// A class admits the byte: its list names it, or, behind a caret, does not.
pub open spec fn admits(class: Seq<u8>, byte: u8) -> bool {
    if class.len() > 0 && class[0] == '^' as u8 {
        !names(listed(class), byte)
    } else {
        names(listed(class), byte)
    }
}

/// The pattern matches the whole key: `*` stands for any bytes, `?` for one byte, a class
/// in brackets for one byte that it admits, and any other byte, or a byte
/// behind a backslash, for itself.
pub open spec fn glob_matches(pattern: Seq<u8>, key: Seq<u8>) -> bool
    decreases pattern.len(), key.len(),
{
    if pattern.len() == 0 {
        key.len() == 0
    } else if pattern[0] == '*' as u8 {
        ||| glob_matches(pattern.skip(1), key)
        ||| key.len() > 0 && glob_matches(pattern, key.skip(1))
    } else if key.len() == 0 {
        false
    } else if pattern[0] == '?' as u8 {
        glob_matches(pattern.skip(1), key.skip(1))
    } else if pattern[0] == '[' as u8 {
        proof {
            lemma_after_list_is_no_longer(listed(pattern.skip(1)));
        }
        admits(pattern.skip(1), key[0]) && glob_matches(
            after_list(listed(pattern.skip(1))),
            key.skip(1),
        )
    } else if pattern[0] == '\\' as u8 && pattern.len() >= 2 {
        pattern[1] == key[0] && glob_matches(pattern.skip(2), key.skip(1))
    } else {
        pattern[0] == key[0] && glob_matches(pattern.skip(1), key.skip(1))
    }
}

/// What follows a list is no longer than the pattern that it is taken from.
pub proof fn lemma_after_list_is_no_longer(list: Seq<u8>)
    ensures
        after_list(list).len() <= list.len(),
    decreases list.len(),
{
    if list.len() > 0 {
        lemma_after_list_is_no_longer(list.skip(1));
        if list.len() >= 2 {
            lemma_after_list_is_no_longer(list.skip(2));
        }
        if list.len() >= 3 {
            lemma_after_list_is_no_longer(list.skip(3));
        }
    }
}

/// Spells the pattern of a text and nothing else.
pub(crate) fn literal_text(text: &str) -> (pattern: String)
    ensures
        pattern@ == literal(text@),
{
    let mut pattern = String::new();
    let len: usize = text.unicode_len();
    let mut i: usize = 0;
    assert(text@.skip(0) =~= text@);
    while i < len
        invariant
            i <= len,
            len == text@.len(),
            pattern@ + literal(text@.skip(i as int)) == literal(text@),
        decreases len - i,
    {
        let c = text.get_char(i);
        let ghost before = pattern@;
        let ghost rest = text@.skip(i as int);
        if c == '*' || c == '?' || c == '[' || c == ']' || c == '\\' {
            proof {
                reveal_strlit("\\");
            }
            pattern.append("\\");
        }
        pattern.append(text.substring_char(i, i + 1));
        i += 1;
        assert(rest.drop_first() =~= text@.skip(i as int));
        assert(pattern@ + literal(rest.drop_first()) =~= before + literal(rest));
    }
    assert(pattern@ + literal(text@.skip(i as int)) =~= pattern@);
    pattern
}

/// A byte that does not stand for itself in a pattern.
spec fn is_special_byte(byte: u8) -> bool {
    byte == '*' as u8 || byte == '?' as u8 || byte == '[' as u8 || byte == ']' as u8 || byte
        == '\\' as u8
}

/// A character of one byte is that byte, and one that is not special has no special byte.
proof fn lemma_bytes_of_char(c: char)
    ensures
        c as u32 <= 0x7f ==> encode_scalar(c as u32) == seq![c as u8],
        encode_scalar(c as u32).len() > 0,
        !is_special(c) ==> forall|i: int|
            0 <= i < encode_scalar(c as u32).len() ==> !is_special_byte(
                #[trigger] encode_scalar(c as u32)[i],
            ),
{
    char_is_scalar(c);
    let s = c as u32;
    if s <= 0x7f {
        assert(leading_byte_width_1(s) == s as u8) by (bit_vector)
            requires
                s <= 0x7f,
        ;
    } else {
        assert(leading_byte_width_2(s) > 0x7f) by (bit_vector);
        assert(leading_byte_width_3(s) > 0x7f) by (bit_vector);
        assert(leading_byte_width_4(s) > 0x7f) by (bit_vector);
        assert(third_last_continuation_byte(s) > 0x7f) by (bit_vector);
        assert(second_last_continuation_byte(s) > 0x7f) by (bit_vector);
        assert(last_continuation_byte(s) > 0x7f) by (bit_vector);
    }
}

/// A key starts with two parts where it starts with the first and goes on with the second.
proof fn lemma_prefix_in_parts(a: Seq<u8>, b: Seq<u8>, key: Seq<u8>)
    ensures
        (a + b).is_prefix_of(key) <==> a.is_prefix_of(key) && b.is_prefix_of(
            key.skip(a.len() as int),
        ),
        (a + b).is_prefix_of(key) ==> key.skip((a + b).len() as int) == key.skip(
            a.len() as int,
        ).skip(b.len() as int),
{
    let len = (a + b).len() as int;
    if (a + b).is_prefix_of(key) {
        assert(a =~= (a + b).subrange(0, a.len() as int));
        assert(a =~= key.subrange(0, a.len() as int));
        assert(b =~= (a + b).subrange(a.len() as int, len));
        assert(b =~= key.skip(a.len() as int).subrange(0, b.len() as int));
        assert(key.skip(len) =~= key.skip(a.len() as int).skip(b.len() as int));
    }
    if a.is_prefix_of(key) && b.is_prefix_of(key.skip(a.len() as int)) {
        assert(key.subrange(0, len) =~= key.subrange(0, a.len() as int) + key.skip(
            a.len() as int,
        ).subrange(0, b.len() as int));
    }
}

/// Bytes that are not special stand for themselves at the start of a pattern.
proof fn lemma_plain_bytes_match(plain: Seq<u8>, rest: Seq<u8>, key: Seq<u8>)
    requires
        forall|i: int| 0 <= i < plain.len() ==> !is_special_byte(#[trigger] plain[i]),
    ensures
        glob_matches(plain + rest, key) <==> plain.is_prefix_of(key) && glob_matches(
            rest,
            key.skip(plain.len() as int),
        ),
    decreases plain.len(),
{
    if plain.len() == 0 {
        assert(plain + rest =~= rest);
        assert(key.skip(0) =~= key);
        assert(plain =~= key.subrange(0, 0));
    } else {
        let head = seq![plain[0]];
        let tail = plain.drop_first();
        assert(plain =~= head + tail);
        lemma_prefix_in_parts(head, tail, key);
        lemma_byte_is_prefix(plain[0], key);
        assert((plain + rest)[0] == plain[0]);
        assert((plain + rest).skip(1) =~= tail + rest);
        if key.len() > 0 {
            lemma_plain_bytes_match(tail, rest, key.skip(1));
        }
    }
}

/// A key starts with a byte where that is its first one.
proof fn lemma_byte_is_prefix(byte: u8, key: Seq<u8>)
    ensures
        seq![byte].is_prefix_of(key) <==> key.len() > 0 && key[0] == byte,
{
    if key.len() > 0 {
        assert(key.subrange(0, 1) =~= seq![key[0]]);
        assert(seq![byte][0] == byte);
    }
}

/// The bytes of two texts, one after the other, are those of the whole.
proof fn lemma_bytes_in_parts(a: Seq<char>, b: Seq<char>)
    ensures
        encode_utf8(a + b) == encode_utf8(a) + encode_utf8(b),
    decreases a.len(),
{
    if a.len() == 0 {
        assert(a + b =~= b);
        assert(encode_utf8(a) + encode_utf8(b) =~= encode_utf8(b));
    } else {
        lemma_bytes_in_parts(a.drop_first(), b);
        assert((a + b).drop_first() =~= a.drop_first() + b);
        assert(encode_utf8(a + b) =~= encode_utf8(a) + encode_utf8(b));
    }
}

/// The bytes of a text of one character are those of the character.
proof fn lemma_bytes_of_one(c: char)
    ensures
        encode_utf8(seq![c]) == encode_scalar(c as u32),
{
    assert(seq![c].drop_first() =~= seq![]);
    assert(encode_utf8(seq![c].drop_first()) =~= seq![]);
    assert(encode_utf8(seq![c]) =~= encode_scalar(c as u32));
}

/// The literal pattern of a text, at the start of a pattern, stands for the text.
proof fn lemma_literal_matches(text: Seq<char>, rest: Seq<u8>, key: Seq<u8>)
    ensures
        glob_matches(encode_utf8(literal(text)) + rest, key) <==> encode_utf8(text).is_prefix_of(
            key,
        ) && glob_matches(rest, key.skip(encode_utf8(text).len() as int)),
    decreases text.len(),
{
    if text.len() == 0 {
        assert(encode_utf8(literal(text)) + rest =~= rest);
        assert(key.skip(0) =~= key);
        assert(encode_utf8(text) =~= key.subrange(0, 0));
    } else {
        let c = text[0];
        let tail = text.drop_first();
        let head = encode_scalar(c as u32);
        let others = encode_utf8(literal(tail)) + rest;
        lemma_bytes_of_char(c);
        lemma_bytes_of_one(c);
        lemma_prefix_in_parts(head, encode_utf8(tail), key);
        if head.len() <= key.len() {
            lemma_literal_matches(tail, rest, key.skip(head.len() as int));
        }
        if is_special(c) {
            let pattern = seq!['\\' as u8, c as u8] + others;
            lemma_bytes_of_char('\\');
            lemma_bytes_of_one('\\');
            lemma_bytes_in_parts(seq!['\\'], seq![c]);
            lemma_bytes_in_parts(seq!['\\'] + seq![c], literal(tail));
            assert(literal(text) =~= seq!['\\'] + seq![c] + literal(tail));
            assert(encode_utf8(literal(text)) + rest =~= pattern);
            assert(pattern.skip(2) =~= others);
            lemma_byte_is_prefix(c as u8, key);
        } else {
            lemma_bytes_in_parts(seq![c], literal(tail));
            assert(encode_utf8(literal(text)) + rest =~= head + others);
            lemma_plain_bytes_match(head, others, key);
        }
    }
}

/// `*` matches every key.
proof fn lemma_star_matches(key: Seq<u8>)
    ensures
        glob_matches(seq!['*' as u8], key),
    decreases key.len(),
{
    if key.len() == 0 {
        assert(glob_matches(seq!['*' as u8].skip(1), key));
    } else {
        lemma_star_matches(key.skip(1));
    }
}

/// Law: a text without special characters is its own pattern.
pub proof fn law_plain_text_is_its_pattern(text: Seq<char>)
    requires
        forall|i: int| 0 <= i < text.len() ==> !is_special(#[trigger] text[i]),
    ensures
        literal(text) == text,
    decreases text.len(),
{
    if text.len() > 0 {
        law_plain_text_is_its_pattern(text.drop_first());
    }
    assert(literal(text) =~= text);
}

/// Law: the literal pattern of a text, then `*`, matches the keys that start with the
/// text, and no others.
pub proof fn law_literal_matches_prefix(text: Seq<char>, key: Seq<u8>)
    ensures
        glob_matches(encode_utf8(literal(text).push('*')), key) <==> encode_utf8(text).is_prefix_of(
            key,
        ),
{
    lemma_bytes_in_parts(literal(text), seq!['*']);
    lemma_bytes_of_one('*');
    lemma_bytes_of_char('*');
    assert(literal(text).push('*') =~= literal(text) + seq!['*']);
    lemma_literal_matches(text, seq!['*' as u8], key);
    lemma_star_matches(key.skip(encode_utf8(text).len() as int));
}

/// Law: the bytes of a text start with those of another where the text starts with the
/// other, and only there.
pub proof fn law_bytes_keep_prefixes(start: Seq<char>, text: Seq<char>)
    ensures
        encode_utf8(start).is_prefix_of(encode_utf8(text)) <==> start.is_prefix_of(text),
    decreases start.len(),
{
    let a = encode_utf8(start);
    let b = encode_utf8(text);
    if start.is_prefix_of(text) {
        lemma_bytes_in_parts(start, text.skip(start.len() as int));
        assert(text =~= start + text.skip(start.len() as int));
        assert(a =~= b.subrange(0, a.len() as int));
    }
    if a.is_prefix_of(b) {
        if start.len() == 0 {
            assert(start =~= text.subrange(0, 0));
        } else {
            lemma_bytes_of_char(start[0]);
            encode_utf8_first_scalar(start);
            encode_utf8_first_scalar(text);
            assert forall|i: int| 0 <= i < a.len() implies a[i] == #[trigger] b[i] by {
                assert(a[i] == b.subrange(0, a.len() as int)[i]);
            }
            let head = encode_scalar(start[0] as u32);
            assert(decode_first_scalar(a) == decode_first_scalar(b));
            char_u32_cast(start[0], decode_first_scalar(a));
            char_u32_cast(text[0], decode_first_scalar(b));
            assert(start[0] == text[0]);
            lemma_prefix_in_parts(head, encode_utf8(start.drop_first()), b);
            assert(b.skip(head.len() as int) =~= encode_utf8(text.drop_first()));
            law_bytes_keep_prefixes(start.drop_first(), text.drop_first());
            assert(start =~= seq![text[0]] + text.drop_first().subrange(
                0,
                start.drop_first().len() as int,
            ));
            assert(start =~= text.subrange(0, start.len() as int));
        }
    }
}

} // verus!
