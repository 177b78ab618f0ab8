//! Reading one line of bounded length, byte by byte.

use vstd::prelude::*;

verus! {

/// Why no line could be read.
#[derive(Clone, Copy, Debug, PartialEq, Eq, Structural)]
pub enum IncomingReadError {
    /// The line is longer than allowed.
    Oversized,
    /// The connection failed, or the line is not text.
    Io,
}

/// What to do after a byte has been read.
#[derive(Clone, Copy, Debug, PartialEq, Eq, Structural)]
pub enum ReadStep {
    /// Read on.
    More,
    /// The line is complete.
    Complete,
    /// The line is too long.
    Oversized,
}

/// `String::from_utf8`: the text of the bytes where they are valid UTF-8, and nothing where they
/// are not.
#[verifier::external_body]
fn utf8_text(bytes: Vec<u8>) -> (text: Option<String>)
    ensures
        match text {
            Some(held) => vstd::utf8::valid_utf8(bytes@) && held@ == vstd::utf8::decode_utf8(
                bytes@,
            ),
            None => !vstd::utf8::valid_utf8(bytes@),
        },
{
    String::from_utf8(bytes).ok()
}

/// The line at the start of some input: up to and with the first line end, or all of it.
pub open spec fn first_line(input: Seq<u8>) -> Seq<u8>
    decreases input.len(),
{
    if input.len() == 0 {
        Seq::empty()
    } else if input[0] == 10 {
        seq![10u8]
    } else {
        seq![input[0]] + first_line(input.skip(1))
    }
}

/// What reading a line of at most `max_bytes` bytes from some input gives: nothing from no input.
pub open spec fn spec_read_line(input: Seq<u8>, max_bytes: usize) -> Result<
    Option<Seq<char>>,
    IncomingReadError,
> {
    let line: Seq<u8> = first_line(input);
    if line.len() > max_bytes {
        Err(IncomingReadError::Oversized)
    } else {
        text_of_line(line)
    }
}

/// What a line of bytes says.
pub open spec fn text_of_line(line: Seq<u8>) -> Result<Option<Seq<char>>, IncomingReadError> {
    if line.len() == 0 {
        Ok(None)
    } else if vstd::utf8::valid_utf8(line) {
        Ok(Some(vstd::utf8::decode_utf8(line)))
    } else {
        Err(IncomingReadError::Io)
    }
}

/// An executable result stands for a result over views.
pub open spec fn is_line_result(
    result: Result<Option<String>, IncomingReadError>,
    expected: Result<Option<Seq<char>>, IncomingReadError>,
) -> bool {
    match result {
        Ok(Some(text)) => expected == Ok::<Option<Seq<char>>, IncomingReadError>(Some(text@)),
        Ok(None) => expected == Ok::<Option<Seq<char>>, IncomingReadError>(None),
        Err(error) => expected == Err::<Option<Seq<char>>, IncomingReadError>(error),
    }
}

/// A line that is being read.
#[derive(Debug)]
pub struct LineReader {
    bytes: Vec<u8>,
    max_bytes: usize,
}

/// The bytes so far, and how many there may be.
pub struct LineView {
    pub bytes: Seq<u8>,
    pub max_bytes: usize,
}

impl View for LineReader {
    type V = LineView;

    closed spec fn view(&self) -> LineView {
        LineView { bytes: self.bytes@, max_bytes: self.max_bytes }
    }
}

impl LineReader {
    /// Nothing read yet.
    pub fn new(max_bytes: usize) -> (reader: Self)
        ensures
            reader@ == (LineView { bytes: Seq::empty(), max_bytes }),
    {
        LineReader { bytes: Vec::new(), max_bytes }
    }

    /// Adds a byte: too many are refused before a line end is looked for.
    pub fn accept(&mut self, byte: u8) -> (step: ReadStep)
        ensures
            final(self)@ == (LineView { bytes: old(self)@.bytes.push(byte), ..old(self)@ }),
            step == (if old(self)@.bytes.len() + 1 > old(self)@.max_bytes {
                ReadStep::Oversized
            } else if byte == 10 {
                ReadStep::Complete
            } else {
                ReadStep::More
            }),
    {
        self.bytes.push(byte);
        if self.bytes.len() > self.max_bytes {
            return ReadStep::Oversized;
        }
        if byte == 10 {
            return ReadStep::Complete;
        }
        ReadStep::More
    }

    /// The line, once it is complete or the input has ended.
    pub fn finish(self) -> (result: Result<Option<String>, IncomingReadError>)
        ensures
            is_line_result(result, text_of_line(self@.bytes)),
    {
        if self.bytes.len() == 0 {
            return Ok(None);
        }
        match utf8_text(self.bytes) {
            Some(text) => Ok(Some(text)),
            None => Err(IncomingReadError::Io),
        }
    }
}

/// The first line begins with every prefix of the input that holds no line end.
proof fn lemma_first_line(input: Seq<u8>, count: int)
    requires
        0 <= count <= input.len(),
        forall|i: int| 0 <= i < count ==> #[trigger] input[i] != 10u8,
    ensures
        first_line(input) == input.take(count) + first_line(input.skip(count)),
    decreases count,
{
    if count == 0 {
        assert(input.skip(0) =~= input);
        assert(input.take(0) + first_line(input) =~= first_line(input));
    } else {
        let rest: Seq<u8> = input.skip(1);
        assert(input[0] != 10u8);
        assert forall|i: int| 0 <= i < count - 1 implies #[trigger] rest[i] != 10u8 by {
            assert(rest[i] == input[i + 1]);
        }
        lemma_first_line(rest, count - 1);
        assert(rest.skip(count - 1) =~= input.skip(count));
        assert(seq![input[0]] + (rest.take(count - 1) + first_line(input.skip(count)))
            =~= input.take(count) + first_line(input.skip(count)));
    }
}

/// Reads the first line of the input.
pub fn read_limited_line_from(input: &[u8], max_message_bytes: usize) -> (result: Result<
    Option<String>,
    IncomingReadError,
>)
    ensures
        is_line_result(result, spec_read_line(input@, max_message_bytes)),
{
    let mut reader: LineReader = LineReader::new(max_message_bytes);
    let mut index: usize = 0;
    assert(reader@.bytes =~= input@.take(0));
    while index < input.len()
        invariant
            index <= input@.len(),
            index <= max_message_bytes,
            reader@.max_bytes == max_message_bytes,
            reader@.bytes == input@.take(index as int),
            forall|i: int| 0 <= i < index ==> #[trigger] input@[i] != 10u8,
        decreases input@.len() - index,
    {
        proof {
            lemma_first_line(input@, index as int);
            assert(input@.skip(index as int)[0] == input@[index as int]);
            assert(input@.take(index as int).push(input@[index as int]) =~= input@.take(index + 1));
            assert(input@.take(index as int) + seq![10u8] =~= input@.take(index as int).push(10u8));
        }
        match reader.accept(input[index]) {
            ReadStep::Oversized => {
                return Err(IncomingReadError::Oversized);
            },
            ReadStep::Complete => {
                return reader.finish();
            },
            ReadStep::More => {},
        }
        index += 1;
    }
    proof {
        lemma_first_line(input@, index as int);
        assert(input@.skip(index as int) =~= Seq::<u8>::empty());
        assert(input@.take(index as int) + Seq::<u8>::empty() =~= input@.take(index as int));
    }
    reader.finish()
}

} // verus!
