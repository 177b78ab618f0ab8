//! Character sequences: joining, splitting, comparing and building strings.

use vstd::prelude::*;

verus! {

/// `String::push`: appends one character to the end of the string.
pub assume_specification[ std::string::String::push ](string: &mut String, ch: char)
    ensures
        final(string)@ == old(string)@.push(ch),
;

/// The parts in order, with `separator` between neighbours.
pub open spec fn join(parts: Seq<Seq<char>>, separator: Seq<char>) -> Seq<char>
    decreases parts.len(),
{
    if parts.len() == 0 {
        Seq::empty()
    } else if parts.len() == 1 {
        parts[0]
    } else {
        join(parts.drop_last(), separator) + separator + parts.last()
    }
}

/// The pieces of `text` between the occurrences of `separator`; one piece where there is none.
pub open spec fn split(text: Seq<char>, separator: char) -> Seq<Seq<char>>
    decreases text.len(),
{
    if text.len() == 0 {
        seq![Seq::empty()]
    } else {
        let before: Seq<Seq<char>> = split(text.drop_last(), separator);
        if text.last() == separator {
            before.push(Seq::empty())
        } else {
            before.drop_last().push(before.last().push(text.last()))
        }
    }
}

/// The contents of the pieces that an executable split gives.
pub open spec fn contents(pieces: Seq<Vec<char>>) -> Seq<Seq<char>> {
    pieces.map_values(|piece: Vec<char>| piece@)
}

pub proof fn lemma_split_nonempty(text: Seq<char>, separator: char)
    ensures
        split(text, separator).len() > 0,
    decreases text.len(),
{
    if text.len() > 0 {
        lemma_split_nonempty(text.drop_last(), separator);
    }
}

/// Splits `text` at every occurrence of `separator`.
pub fn split_chars(text: &[char], separator: char) -> (pieces: Vec<Vec<char>>)
    ensures
        contents(pieces@) == split(text@, separator),
        pieces@.len() > 0,
{
    let mut pieces: Vec<Vec<char>> = Vec::new();
    let mut current: Vec<char> = Vec::new();
    let mut index: usize = 0;
    assert(contents(pieces@).push(current@) =~= seq![Seq::<char>::empty()]);
    assert(text@.take(0) =~= Seq::<char>::empty());
    while index < text.len()
        invariant
            index <= text@.len(),
            contents(pieces@).push(current@) == split(text@.take(index as int), separator),
        decreases text@.len() - index,
    {
        let c: char = text[index];
        let ghost before: Seq<Seq<char>> = split(text@.take(index as int), separator);
        assert(text@.take(index + 1).drop_last() =~= text@.take(index as int));
        assert(before.last() == current@);
        assert(before.drop_last() =~= contents(pieces@));
        if c == separator {
            pieces.push(current);
            current = Vec::new();
            assert(contents(pieces@) =~= before);
            assert(current@ =~= Seq::<char>::empty());
        } else {
            current.push(c);
        }
        index += 1;
    }
    assert(text@.take(index as int) =~= text@);
    let ghost whole: Seq<Seq<char>> = contents(pieces@).push(current@);
    pieces.push(current);
    assert(contents(pieces@) =~= whole);
    pieces
}

/// No part holds the separator.
pub open spec fn none_holds(parts: Seq<Seq<char>>, separator: char) -> bool {
    forall|i: int| 0 <= i < parts.len() ==> !(#[trigger] parts[i]).contains(separator)
}

/// Appending text free of the separator extends the last piece.
pub proof fn lemma_split_append(text: Seq<char>, tail: Seq<char>, separator: char)
    requires
        !tail.contains(separator),
    ensures
        split(text + tail, separator) == split(text, separator).drop_last().push(
            split(text, separator).last() + tail,
        ),
    decreases tail.len(),
{
    lemma_split_nonempty(text, separator);
    let whole: Seq<char> = text + tail;
    let pieces: Seq<Seq<char>> = split(text, separator);
    if tail.len() == 0 {
        assert(whole =~= text);
        assert(pieces.last() + tail =~= pieces.last());
        assert(pieces.drop_last().push(pieces.last()) =~= pieces);
    } else {
        assert forall|i: int| 0 <= i < tail.drop_last().len() implies tail.drop_last()[i]
            != separator by {
            assert(tail.contains(tail[i]));
        }
        lemma_split_append(text, tail.drop_last(), separator);
        assert(whole.drop_last() =~= text + tail.drop_last());
        assert(tail.contains(tail.last()));
        let before: Seq<Seq<char>> = split(whole.drop_last(), separator);
        assert(before.drop_last() =~= pieces.drop_last());
        assert(before.last().push(whole.last()) =~= pieces.last() + tail);
    }
}

/// Splitting joined parts at the separator gives the parts back, where no part holds it.
pub proof fn lemma_split_join(parts: Seq<Seq<char>>, separator: char)
    requires
        parts.len() > 0,
        none_holds(parts, separator),
    ensures
        split(join(parts, seq![separator]), separator) == parts,
    decreases parts.len(),
{
    if parts.len() == 1 {
        let empty: Seq<char> = Seq::empty();
        lemma_split_append(empty, parts[0], separator);
        assert(empty + parts[0] =~= parts[0]);
        assert(split(parts[0], separator) =~= parts);
    } else {
        let init: Seq<Seq<char>> = parts.drop_last();
        assert forall|i: int| 0 <= i < init.len() implies !(#[trigger] init[i]).contains(
            separator,
        ) by {
            assert(init[i] == parts[i]);
        }
        lemma_split_join(init, separator);
        let head: Seq<char> = join(init, seq![separator]) + seq![separator];
        assert(head.drop_last() =~= join(init, seq![separator]));
        assert(split(head, separator) == init.push(Seq::empty()));
        lemma_split_append(head, parts.last(), separator);
        assert(Seq::<char>::empty() + parts.last() =~= parts.last());
        assert(split(head + parts.last(), separator) =~= parts);
    }
}

/// The characters of a string.
pub fn chars_of(text: &str) -> (chars: Vec<char>)
    ensures
        chars@ == text@,
{
    let mut chars: Vec<char> = Vec::new();
    for c in iter: text.chars()
        invariant
            chars@ == iter.seq().take(iter.index() as int),
            iter.seq() == text@,
    {
        chars.push(c);
    }
    chars
}

/// The string of the given characters.
pub fn string_of(chars: &[char]) -> (text: String)
    ensures
        text@ == chars@,
{
    let mut text: String = String::new();
    let mut index: usize = 0;
    while index < chars.len()
        invariant
            index <= chars@.len(),
            text@ == chars@.take(index as int),
        decreases chars@.len() - index,
    {
        text.push(chars[index]);
        index += 1;
        assert(chars@.take(index as int) =~= chars@.take(index - 1).push(chars@[index - 1]));
    }
    assert(chars@.take(index as int) =~= chars@);
    text
}

/// Whether two character sequences are the same.
pub fn same_chars(left: &[char], right: &[char]) -> (same: bool)
    ensures
        same == (left@ == right@),
{
    if left.len() != right.len() {
        return false;
    }
    let mut index: usize = 0;
    while index < left.len()
        invariant
            index <= left@.len(),
            left@.len() == right@.len(),
            left@.take(index as int) == right@.take(index as int),
        decreases left@.len() - index,
    {
        if left[index] != right[index] {
            assert(left@[index as int] != right@[index as int]);
            return false;
        }
        index += 1;
        assert(left@.take(index as int) =~= left@.take(index - 1).push(left@[index - 1]));
        assert(right@.take(index as int) =~= right@.take(index - 1).push(right@[index - 1]));
    }
    assert(left@.take(index as int) =~= left@);
    assert(right@.take(index as int) =~= right@);
    true
}

/// Whether the characters spell the given string.
pub fn spells(chars: &[char], text: &str) -> (same: bool)
    ensures
        same == (chars@ == text@),
{
    let expected: Vec<char> = chars_of(text);
    same_chars(chars, expected.as_slice())
}

/// The contents of a list of strings.
pub open spec fn string_views(parts: Seq<String>) -> Seq<Seq<char>> {
    parts.map_values(|part: String| part@)
}

/// The strings in order, with `separator` between neighbours.
pub fn join_strings(parts: &[String], separator: &str) -> (text: String)
    ensures
        text@ == join(string_views(parts@), separator@),
{
    let mut out: String = String::new();
    let mut index: usize = 0;
    while index < parts.len()
        invariant
            index <= parts@.len(),
            out@ == join(string_views(parts@.take(index as int)), separator@),
        decreases parts@.len() - index,
    {
        if index > 0 {
            out.append(separator);
        }
        out.append(parts[index].as_str());
        index += 1;
        assert(string_views(parts@.take(index as int)).drop_last() =~= string_views(
            parts@.take(index - 1),
        ));
        assert(out@ =~= join(string_views(parts@.take(index as int)), separator@));
    }
    assert(parts@.take(index as int) =~= parts@);
    out
}

/// The three texts one after the other.
pub fn concat3(first: &str, second: &str, third: &str) -> (text: String)
    ensures
        text@ == first@ + second@ + third@,
{
    let mut out: String = first.to_string();
    out.append(second);
    out.append(third);
    out
}

/// Joining two lists of parts is joining each, with a separator between.
pub proof fn lemma_join_append(
    left: Seq<Seq<char>>,
    right: Seq<Seq<char>>,
    separator: Seq<char>,
)
    requires
        left.len() > 0,
        right.len() > 0,
    ensures
        join(left + right, separator) == join(left, separator) + separator + join(right, separator),
    decreases right.len(),
{
    let whole: Seq<Seq<char>> = left + right;
    assert(whole.last() == right.last());
    if right.len() == 1 {
        assert(whole.drop_last() =~= left);
    } else {
        lemma_join_append(left, right.drop_last(), separator);
        assert(whole.drop_last() =~= left + right.drop_last());
        let middle: Seq<char> = join(right.drop_last(), separator);
        let head: Seq<char> = join(left, separator) + separator;
        assert((head + middle) + separator + right.last() =~= head + (middle + separator
            + right.last()));
    }
}

/// Whether the characters begin with the given string.
pub fn starts_with(chars: &[char], prefix: &str) -> (begins: bool)
    ensures
        begins == prefix@.is_prefix_of(chars@),
{
    let expected: Vec<char> = chars_of(prefix);
    if chars.len() < expected.len() {
        return false;
    }
    let head: &[char] = vstd::slice::slice_subrange(chars, 0, expected.len());
    assert(prefix@.is_prefix_of(chars@) == (head@ == prefix@));
    same_chars(head, expected.as_slice())
}

/// The character lists in order as one string, with `separator` between neighbours.
pub fn join_chars(parts: &[Vec<char>], separator: &str) -> (text: String)
    ensures
        text@ == join(contents(parts@), separator@),
{
    let mut strings: Vec<String> = Vec::new();
    let mut index: usize = 0;
    assert(string_views(strings@) =~= contents(parts@).take(0));
    while index < parts.len()
        invariant
            index <= parts@.len(),
            string_views(strings@) == contents(parts@).take(index as int),
        decreases parts@.len() - index,
    {
        let ghost before: Seq<String> = strings@;
        strings.push(string_of(parts[index].as_slice()));
        index += 1;
        assert(string_views(strings@) =~= string_views(before).push(parts@[index - 1]@));
        assert(contents(parts@).take(index as int) =~= contents(parts@).take(index - 1).push(
            parts@[index - 1]@,
        ));
    }
    assert(contents(parts@).take(index as int) =~= contents(parts@));
    join_strings(strings.as_slice(), separator)
}

/// Whether two strings are the same.
pub fn same_text(left: &str, right: &str) -> (same: bool)
    ensures
        same == (left@ == right@),
{
    let chars: Vec<char> = chars_of(left);
    spells(chars.as_slice(), right)
}

} // verus!
