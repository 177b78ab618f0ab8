//! What the texts of numbers, lists and digests say, character by character.

use vstd::prelude::*;

use crate::decimal;
use crate::domain::digest;
use crate::domain::Digest;
use crate::text;

verus! {

/// Decimal digits, at least one.
pub open spec fn all_decimal(text: Seq<char>) -> bool {
    text.len() > 0 && forall|i: int| 0 <= i < text.len() ==> 48 <= (#[trigger] text[i]) as int <= 57
}

/// The number that decimal digits add up to.
pub open spec fn numeral(text: Seq<char>) -> int
    decreases text.len(),
{
    if text.len() == 0 {
        0
    } else {
        10 * numeral(text.drop_last()) + (text.last() as int - 48)
    }
}

/// Decimal digits of a number, with no zero before the first digit that counts.
pub open spec fn is_numeral(text: Seq<char>, value: int) -> bool {
    &&& all_decimal(text)
    &&& numeral(text) == value
    &&& text.len() > 1 ==> text[0] != '0'
}

/// The text of an integer: digits, behind a minus sign where it is negative.
pub open spec fn is_written(text: Seq<char>, value: int) -> bool {
    if value < 0 {
        text.len() > 0 && text[0] == '-' && is_numeral(text.skip(1), -value)
    } else {
        is_numeral(text, value)
    }
}

proof fn lemma_digits_are_numeral(value: nat)
    ensures
        is_numeral(decimal::digits_of(value), value as int),
        value > 0 ==> decimal::digits_of(value)[0] != '0',
    decreases value,
{
    let digits: Seq<char> = decimal::digits_of(value);
    if value < 10 {
        assert(digits.drop_last() =~= Seq::<char>::empty());
        assert(numeral(digits.drop_last()) == 0);
    } else {
        lemma_digits_are_numeral(value / 10);
        assert(digits.drop_last() =~= decimal::digits_of(value / 10));
    }
}

/// An integer is written in decimal, for every integer.
pub proof fn lemma_number_is_written(value: int)
    ensures
        is_written(decimal::int_text(value), value),
{
    if value < 0 {
        lemma_digits_are_numeral((-value) as nat);
        assert(decimal::int_text(value).skip(1) =~= decimal::digits_of((-value) as nat));
    } else {
        lemma_digits_are_numeral(value as nat);
    }
}

proof fn lemma_numeral_is_value(text: Seq<char>)
    requires
        forall|i: int| 0 <= i < text.len() ==> 48 <= (#[trigger] text[i]) as int <= 57,
    ensures
        numeral(text) == decimal::value_of(text),
        numeral(text) >= 0,
    decreases text.len(),
{
    if text.len() > 0 {
        assert forall|i: int| 0 <= i < text.drop_last().len() implies 48 <= (
        #[trigger] text.drop_last()[i]) as int <= 57 by {
            assert(text.drop_last()[i] == text[i]);
        }
        lemma_numeral_is_value(text.drop_last());
    }
}

proof fn lemma_digits_agree(text: Seq<char>)
    ensures
        decimal::is_digits(text) == all_decimal(text),
        all_decimal(text) ==> decimal::value_of(text) == numeral(text) >= 0,
{
    if all_decimal(text) {
        lemma_numeral_is_value(text);
        assert(forall|i: int| 0 <= i < text.len() ==> decimal::is_digit(#[trigger] text[i]));
    }
    if decimal::is_digits(text) {
        assert forall|i: int| 0 <= i < text.len() implies 48 <= (#[trigger] text[i]) as int
            <= 57 by {
            assert(decimal::is_digit(text[i]));
        }
    }
}

/// Decimal digits add up to no negative number.
pub proof fn lemma_numerals_are_natural(text: Seq<char>)
    ensures
        all_decimal(text) ==> numeral(text) >= 0,
{
    lemma_digits_agree(text);
}

/// A text reads as an unsigned number exactly where it is decimal digits, behind at most one plus
/// sign, that add up to that number, and the number is within the bound.
pub proof fn lemma_unsigned_reading_is_exact(text: Seq<char>, max: nat, value: nat)
    ensures
        text.len() == 0 ==> decimal::spec_parse_unsigned(text, max) is None,
        text.len() > 0 && text[0] == '+' ==> (decimal::spec_parse_unsigned(text, max) == Some(value)
            <==> all_decimal(text.skip(1)) && numeral(text.skip(1)) == value && value <= max),
        text.len() > 0 && text[0] != '+' ==> (decimal::spec_parse_unsigned(text, max) == Some(value)
            <==> all_decimal(text) && numeral(text) == value && value <= max),
{
    lemma_digits_agree(text);
    lemma_digits_agree(text.skip(1));
}

/// A text reads as a 64-bit signed number exactly where it is decimal digits, behind at most one
/// sign, that add up to that number, and the number is within 64 bits.
pub proof fn lemma_signed_reading_is_exact(text: Seq<char>, value: int)
    ensures
        text.len() == 0 ==> decimal::spec_parse_i64(text) is None,
        text.len() > 0 && text[0] == '+' ==> (decimal::spec_parse_i64(text) == Some(value)
            <==> all_decimal(text.skip(1)) && numeral(text.skip(1)) == value && value
            <= i64::MAX),
        text.len() > 0 && text[0] == '-' ==> (decimal::spec_parse_i64(text) == Some(value)
            <==> all_decimal(text.skip(1)) && numeral(text.skip(1)) == -value && value
            >= i64::MIN),
        text.len() > 0 && text[0] != '+' && text[0] != '-' ==> (decimal::spec_parse_i64(text)
            == Some(value) <==> all_decimal(text) && numeral(text) == value && value <= i64::MAX),
{
    lemma_digits_agree(text);
    lemma_digits_agree(text.skip(1));
}

/// Parts in a row, with a separator between neighbours.
pub open spec fn strung(parts: Seq<Seq<char>>, separator: Seq<char>) -> Seq<char>
    decreases parts.len(),
{
    if parts.len() == 0 {
        Seq::empty()
    } else if parts.len() == 1 {
        parts[0]
    } else {
        parts[0] + separator + strung(parts.skip(1), separator)
    }
}

/// Joining puts the separator between every two neighbours and nowhere else.
pub proof fn lemma_join_strings_parts(parts: Seq<Seq<char>>, separator: Seq<char>)
    ensures
        text::join(parts, separator) == strung(parts, separator),
    decreases parts.len(),
{
    if parts.len() > 1 {
        let rest: Seq<Seq<char>> = parts.skip(1);
        lemma_join_strings_parts(rest, separator);
        text::lemma_join_append(seq![parts[0]], rest, separator);
        assert(seq![parts[0]] + rest =~= parts);
    }
}

/// The pieces of a split hold no separator and join to the text.
proof fn lemma_pieces_join(content: Seq<char>, separator: char)
    ensures
        text::split(content, separator).len() > 0,
        text::none_holds(text::split(content, separator), separator),
        text::join(text::split(content, separator), seq![separator]) == content,
    decreases content.len(),
{
    let pieces: Seq<Seq<char>> = text::split(content, separator);
    if content.len() == 0 {
        assert(pieces[0].len() == 0);
    } else {
        let fewer: Seq<char> = content.drop_last();
        let before: Seq<Seq<char>> = text::split(fewer, separator);
        lemma_pieces_join(fewer, separator);
        assert(content =~= fewer.push(content.last()));
        if content.last() == separator {
            assert(pieces.drop_last() =~= before);
            assert(pieces.last() =~= Seq::<char>::empty());
            assert(text::join(pieces, seq![separator]) =~= content);
            assert forall|i: int| 0 <= i < pieces.len() implies !(
            #[trigger] pieces[i]).contains(separator) by {
                if i < before.len() {
                    assert(pieces[i] == before[i]);
                }
            }
        } else {
            let longer: Seq<char> = before.last().push(content.last());
            assert(pieces.drop_last() =~= before.drop_last());
            assert(pieces.last() == longer);
            assert(!before[before.len() - 1].contains(separator));
            assert(!longer.contains(separator)) by {
                if longer.contains(separator) {
                    let k: int = choose|k: int| 0 <= k < longer.len() && longer[k] == separator;
                    assert(before.last()[k] == separator);
                }
            }
            assert forall|i: int| 0 <= i < pieces.len() implies !(
            #[trigger] pieces[i]).contains(separator) by {
                if i < pieces.len() - 1 {
                    assert(pieces[i] == before[i]);
                }
            }
            assert(text::join(pieces, seq![separator]) =~= content);
        }
    }
}

/// Splitting is the one way to cut a text at the separator: the pieces hold none, and stand in the
/// text with one between neighbours.
pub proof fn lemma_split_is_exact(content: Seq<char>, separator: char, parts: Seq<Seq<char>>)
    ensures
        text::split(content, separator) == parts <==> {
            &&& parts.len() > 0
            &&& forall|i: int|
                0 <= i < parts.len() ==> !(#[trigger] parts[i]).contains(separator)
            &&& strung(parts, seq![separator]) == content
        },
{
    lemma_pieces_join(content, separator);
    lemma_join_strings_parts(text::split(content, separator), seq![separator]);
    if parts.len() > 0 && text::none_holds(parts, separator) {
        text::lemma_split_join(parts, separator);
        lemma_join_strings_parts(parts, seq![separator]);
    }
}

/// The value of a hexadecimal digit; -1 of any other character.
pub open spec fn nibble(c: int) -> int {
    if 48 <= c <= 57 {
        c - 48
    } else if 97 <= c <= 102 {
        c - 97 + 10
    } else if 65 <= c <= 70 {
        c - 65 + 10
    } else {
        -1
    }
}

/// Two digits a byte, the high one first, none of them a capital.
pub open spec fn is_hex_of(text: Seq<char>, bytes: Seq<u8>) -> bool {
    &&& text.len() == 2 * bytes.len()
    &&& forall|i: int|
        0 <= i < bytes.len() ==> 16 * nibble(#[trigger] high_digit(text, i)) + nibble(
            low_digit(text, i),
        ) == bytes[i] && 0 <= nibble(high_digit(text, i)) && 0 <= nibble(low_digit(text, i))
            && !(65 <= high_digit(text, i) <= 70) && !(65 <= low_digit(text, i) <= 70)
}

pub open spec fn high_digit(text: Seq<char>, i: int) -> int {
    text[2 * i] as int
}

pub open spec fn low_digit(text: Seq<char>, i: int) -> int {
    text[2 * i + 1] as int
}

/// The hexadecimal text of any bytes gives each of them back from its two digits.
pub proof fn lemma_hex_shows_bytes(bytes: Seq<u8>)
    ensures
        is_hex_of(digest::hex_text(bytes), bytes),
{
    let shown: Seq<char> = digest::hex_text(bytes);
    assert forall|i: int| 0 <= i < bytes.len() implies 16 * nibble(
        #[trigger] high_digit(shown, i),
    ) + nibble(low_digit(shown, i)) == bytes[i] && 0 <= nibble(high_digit(shown, i)) && 0
        <= nibble(low_digit(shown, i)) && !(65 <= high_digit(shown, i) <= 70) && !(65 <= low_digit(
        shown,
        i,
    ) <= 70) by {
        let byte: u8 = bytes[i];
        assert((2 * i) / 2 == i && (2 * i) % 2 == 0);
        assert((2 * i + 1) / 2 == i && (2 * i + 1) % 2 == 1);
        assert(byte / 16 < 16 && byte % 16 < 16 && 16 * (byte / 16) + byte % 16 == byte);
    }
}

/// Bytes of a text stand for a digest: 64 hexadecimal digits of either case.
pub open spec fn spells_digest(bytes: Seq<u8>, held: Digest) -> bool {
    &&& bytes.len() == 64
    &&& forall|i: int| 0 <= i < 64 ==> nibble((#[trigger] bytes[i]) as int) >= 0
    &&& forall|i: int|
        0 <= i < 32 ==> (#[trigger] held@[i]) == 16 * nibble(bytes[2 * i] as int) + nibble(
            bytes[2 * i + 1] as int,
        )
}

/// A text reads as a digest exactly where it spells it. Else it is told what is wrong: its length
/// first, then a digit.
pub proof fn lemma_hex_reading_is_exact(content: Seq<char>, held: Digest)
    ensures
        ({
            let bytes: Seq<u8> = vstd::utf8::encode_utf8(content);
            let read: Result<Digest, Seq<char>> = digest::spec_from_hex(content);
            &&& read == Ok::<Digest, Seq<char>>(held) <==> spells_digest(bytes, held)
            &&& read == Err::<Digest, Seq<char>>("digest hex must be 64 characters"@)
                <==> bytes.len() != 64
            &&& read == Err::<Digest, Seq<char>>("invalid hex digit"@) <==> bytes.len() == 64
                && exists|i: int| 0 <= i < 64 && nibble((#[trigger] bytes[i]) as int) < 0
        }),
{
    broadcast use digest::lemma_digest_len;

    let bytes: Seq<u8> = vstd::utf8::encode_utf8(content);
    let read: Result<Digest, Seq<char>> = digest::spec_from_hex(content);
    reveal_strlit("digest hex must be 64 characters");
    reveal_strlit("invalid hex digit");
    assert("digest hex must be 64 characters"@.len() != "invalid hex digit"@.len());
    assert forall|i: int| 0 <= i < bytes.len() implies (digest::hex_value(#[trigger] bytes[i])
        is Some <==> nibble(bytes[i] as int) >= 0) && (digest::hex_value(bytes[i]) is Some
        ==> digest::hex_value(bytes[i])->0 == nibble(bytes[i] as int)) by {}
    if bytes.len() == 64 {
        let made: Seq<u8> = digest::hex_bytes(bytes);
        Digest::lemma_of(made);
        if digest::all_hex(bytes) {
            assert forall|i: int| 0 <= i < 64 implies nibble((#[trigger] bytes[i]) as int)
                >= 0 by {
                assert(digest::hex_value(bytes[i]) is Some);
            }
            assert forall|i: int| 0 <= i < 32 implies #[trigger] made[i] == 16 * nibble(
                bytes[2 * i] as int,
            ) + nibble(bytes[2 * i + 1] as int) by {
                assert(digest::hex_value(bytes[2 * i]) is Some);
                assert(digest::hex_value(bytes[2 * i + 1]) is Some);
            }
            if spells_digest(bytes, held) {
                assert(held@ =~= made) by {
                    assert forall|i: int| 0 <= i < 32 implies held@[i] == made[i] by {}
                }
                digest::lemma_digest_ext(held, Digest::of(made));
            }
        } else {
            let i: int = choose|i: int|
                0 <= i < bytes.len() && !(digest::hex_value(#[trigger] bytes[i]) is Some);
            assert(nibble(bytes[i] as int) < 0);
        }
    }
}

} // verus!
