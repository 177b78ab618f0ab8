//! 256-bit digests and their hexadecimal text.

use vstd::prelude::*;

verus! {

/// A 256-bit digest.
#[derive(Clone, Copy, Debug, Eq, Hash)]
pub struct Digest([u8; 32]);

/// A digest is its 32 bytes.
impl View for Digest {
    type V = Seq<u8>;

    closed spec fn view(&self) -> Seq<u8> {
        self.0@
    }
}

impl PartialEq for Digest {
    fn eq(&self, other: &Self) -> (r: bool) {
        let mut i: usize = 0;
        while i < 32
            invariant
                i <= 32,
                forall|j: int| 0 <= j < i ==> self@[j] == other@[j],
            decreases 32 - i,
        {
            if self.0[i] != other.0[i] {
                return false;
            }
            i += 1;
        }
        proof {
            assert(self@ =~= other@);
            lemma_digest_ext(*self, *other);
        }
        true
    }
}

impl vstd::std_specs::cmp::PartialEqSpecImpl for Digest {
    open spec fn obeys_eq_spec() -> bool {
        true
    }

    open spec fn eq_spec(&self, other: &Self) -> bool {
        *self == *other
    }
}

/// A digest has 32 bytes.
pub broadcast proof fn lemma_digest_len(digest: Digest)
    ensures
        (#[trigger] digest@).len() == 32,
{
}

/// Two digests with the same bytes are the same digest.
pub proof fn lemma_digest_ext(left: Digest, right: Digest)
    requires
        left@ == right@,
    ensures
        left == right,
{
    assert(left.0 =~= right.0) by {
        assert forall|i: int| 0 <= i < 32 implies left.0[i] == right.0[i] by {
            assert(left.0@[i] == right.0@[i]);
        }
    }
}

/// The bit of `bytes` at position `index`, counted from the most significant bit of the first byte.
pub open spec fn bit_at(bytes: Seq<u8>, index: int) -> bool {
    (bytes[index / 8] >> ((7 - index % 8) as u8)) & 1u8 == 1u8
}

/// `count` is the number of zero bits before the first one bit of `bytes`.
pub open spec fn is_leading_zero_count(bytes: Seq<u8>, count: int) -> bool {
    &&& 0 <= count <= 8 * bytes.len()
    &&& forall|i: int| 0 <= i < count ==> !#[trigger] bit_at(bytes, i)
    &&& count < 8 * bytes.len() ==> bit_at(bytes, count)
}

/// The number of zero bits from position `from` up to the next one bit or the end.
pub open spec fn zero_run(bytes: Seq<u8>, from: nat) -> nat
    decreases 8 * bytes.len() - from,
{
    if from >= 8 * bytes.len() || bit_at(bytes, from as int) {
        0
    } else {
        1 + zero_run(bytes, from + 1)
    }
}

/// The number of zero bits before the first one bit of `bytes`.
pub open spec fn leading_zeros(bytes: Seq<u8>) -> nat {
    zero_run(bytes, 0)
}

proof fn lemma_zero_run(bytes: Seq<u8>, from: nat, count: nat)
    requires
        is_leading_zero_count(bytes, count as int),
        from <= count,
    ensures
        from + zero_run(bytes, from) == count,
    decreases count - from,
{
    if from < count {
        assert(!bit_at(bytes, from as int));
        lemma_zero_run(bytes, from + 1, count);
    }
}

proof fn lemma_zero_run_bound(bytes: Seq<u8>, from: nat)
    requires
        from <= 8 * bytes.len(),
    ensures
        from + zero_run(bytes, from) <= 8 * bytes.len(),
    decreases 8 * bytes.len() - from,
{
    if from < 8 * bytes.len() {
        lemma_zero_run_bound(bytes, from + 1);
    }
}

/// A digest has at most 256 leading zero bits.
pub proof fn lemma_leading_zeros_bound(digest: Digest)
    ensures
        leading_zeros(digest@) <= 256,
{
    broadcast use lemma_digest_len;

    lemma_zero_run_bound(digest@, 0);
}

/// The lower-case hexadecimal digit of a value below sixteen.
pub open spec fn spec_hex_digit(nibble: u8) -> char {
    if nibble < 10 {
        (48 + nibble) as char
    } else {
        (87 + nibble) as char
    }
}

/// The value of a hexadecimal digit of either case.
pub open spec fn hex_value(byte: u8) -> Option<u8> {
    if 48 <= byte <= 57 {
        Some((byte - 48) as u8)
    } else if 97 <= byte <= 102 {
        Some((byte - 87) as u8)
    } else if 65 <= byte <= 70 {
        Some((byte - 55) as u8)
    } else {
        None
    }
}

/// The hexadecimal text of `bytes`, two digits a byte.
pub open spec fn hex_text(bytes: Seq<u8>) -> Seq<char> {
    Seq::new(
        2 * bytes.len(),
        |i: int|
            if i % 2 == 0 {
                spec_hex_digit(bytes[i / 2] / 16)
            } else {
                spec_hex_digit(bytes[i / 2] % 16)
            },
    )
}

/// Every byte of `text` is a hexadecimal digit.
pub open spec fn all_hex(text: Seq<u8>) -> bool {
    forall|i: int| 0 <= i < text.len() ==> hex_value(#[trigger] text[i]) is Some
}

/// The bytes that pairs of hexadecimal digits stand for.
pub open spec fn hex_bytes(text: Seq<u8>) -> Seq<u8> {
    Seq::new(
        text.len() / 2,
        |i: int| (hex_value(text[2 * i])->0 * 16 + hex_value(text[2 * i + 1])->0) as u8,
    )
}

/// What reading a digest from a text gives: the digest, or what is wrong with the text.
///
/// The length that counts is the length in bytes.
pub open spec fn spec_from_hex(text: Seq<char>) -> Result<Digest, Seq<char>> {
    let bytes: Seq<u8> = vstd::utf8::encode_utf8(text);
    if bytes.len() != 64 {
        Err("digest hex must be 64 characters"@)
    } else if !all_hex(bytes) {
        Err("invalid hex digit"@)
    } else {
        Ok(Digest::of(hex_bytes(bytes)))
    }
}

impl Digest {
    /// The digest with the given 32 bytes.
    pub closed spec fn of(b: Seq<u8>) -> Digest {
        Digest(
            [
                b[0], b[1], b[2], b[3], b[4], b[5], b[6], b[7],
                b[8], b[9], b[10], b[11], b[12], b[13], b[14], b[15],
                b[16], b[17], b[18], b[19], b[20], b[21], b[22], b[23],
                b[24], b[25], b[26], b[27], b[28], b[29], b[30], b[31],
            ],
        )
    }

    /// `of` gives the digest whose bytes these are.
    pub proof fn lemma_of(b: Seq<u8>)
        requires
            b.len() == 32,
        ensures
            Digest::of(b)@ == b,
    {
        assert(Digest::of(b)@ =~= b);
    }

    /// The digest of 32 zero bytes.
    pub open spec fn spec_zero() -> Digest {
        Digest::of(Seq::new(32, |i: int| 0u8))
    }

    pub fn zero() -> (digest: Self)
        ensures
            digest == Digest::spec_zero(),
            forall|i: int| 0 <= i < 32 ==> #[trigger] digest@[i] == 0u8,
    {
        let digest: Digest = Digest([0;32]);
        proof {
            let zeros: Seq<u8> = Seq::new(32, |i: int| 0u8);
            Digest::lemma_of(zeros);
            assert(digest@ =~= zeros);
            lemma_digest_ext(digest, Digest::of(zeros));
        }
        digest
    }

    pub fn from_bytes(bytes: [u8; 32]) -> (digest: Self)
        ensures
            digest@ == bytes@,
    {
        Digest(bytes)
    }

    pub fn as_bytes(&self) -> (bytes: &[u8; 32])
        ensures
            bytes@ == self@,
    {
        &self.0
    }

    /// Appends the 32 bytes of the digest.
    pub fn append_to(&self, out: &mut Vec<u8>)
        ensures
            final(out)@ == old(out)@ + self@,
    {
        out.extend_from_slice(self.0.as_slice());
        assert(out@ =~= old(out)@ + self@);
    }

    /// The digest as 64 lower-case hexadecimal digits.
    pub fn to_hex(self) -> (text: String)
        ensures
            text@ == hex_text(self@),
    {
        let mut out: String = String::new();
        let mut i: usize = 0;
        while i < 32
            invariant
                i <= 32,
                out@ == hex_text(self@).take(2 * i),
            decreases 32 - i,
        {
            let byte: u8 = self.0[i];
            out.push(hex_digit(byte / 16));
            out.push(hex_digit(byte % 16));
            i += 1;
            assert(hex_text(self@).take(2 * i) =~= hex_text(self@).take(2 * i - 2).push(
                spec_hex_digit(self@[i - 1] / 16),
            ).push(spec_hex_digit(self@[i - 1] % 16)));
        }
        assert(hex_text(self@).take(64) =~= hex_text(self@));
        out
    }

    /// Reads a digest from 64 hexadecimal digits of either case.
    pub fn from_hex(input: &str) -> (result: Result<Self, String>)
        ensures
            match result {
                Ok(digest) => spec_from_hex(input@) == Ok::<Digest, Seq<char>>(digest),
                Err(message) => spec_from_hex(input@) == Err::<Digest, Seq<char>>(message@),
            },
    {
        let text: &[u8] = input.as_bytes();
        if text.len() != 64 {
            return Err("digest hex must be 64 characters".to_string());
        }
        let mut bytes: [u8; 32] = [0;32];
        let mut index: usize = 0;
        while index < 32
            invariant
                index <= 32,
                text@.len() == 64,
                text@ == vstd::utf8::encode_utf8(input@),
                forall|j: int| 0 <= j < 2 * index ==> hex_value(#[trigger] text@[j]) is Some,
                forall|j: int| 0 <= j < index ==> #[trigger] bytes@[j] == hex_bytes(text@)[j],
            decreases 32 - index,
        {
            let high: u8 = match decode_hex_digit(text[index * 2]) {
                Ok(value) => value,
                Err(message) => return Err(message),
            };
            let low: u8 = match decode_hex_digit(text[index * 2 + 1]) {
                Ok(value) => value,
                Err(message) => return Err(message),
            };
            bytes[index] = high * 16 + low;
            index += 1;
        }
        proof {
            Digest::lemma_of(hex_bytes(text@));
            assert(bytes@ =~= hex_bytes(text@));
            lemma_digest_ext(Digest(bytes), Digest::of(hex_bytes(text@)));
        }
        Ok(Digest(bytes))
    }

    /// The number of zero bits before the first one bit; 256 for the zero digest.
    pub fn leading_zero_bits(&self) -> (count: u32)
        ensures
            is_leading_zero_count(self@, count as int),
            count == leading_zeros(self@),
    {
        let mut total: u32 = 0;
        let mut i: usize = 0;
        while i < 32
            invariant
                i <= 32,
                total == 8 * i,
                forall|j: int| 0 <= j < 8 * i ==> !#[trigger] bit_at(self@, j),
            decreases 32 - i,
        {
            let byte: u8 = self.0[i];
            if byte != 0 {
                let zeros: u32 = byte.leading_zeros();
                proof {
                    lemma_byte_bits(self@, i as int, byte, zeros as int);
                    assert(zeros < 8) by {
                        vstd::std_specs::bits::axiom_u8_leading_zeros(byte);
                    }
                    lemma_zero_run(self@, 0, (total + zeros) as nat);
                }
                return total + zeros;
            }
            proof {
                lemma_byte_bits(self@, i as int, byte, 8);
            }
            total += 8;
            i += 1;
        }
        proof {
            lemma_zero_run(self@, 0, 256);
        }
        total
    }
}

/// The bits of one byte, as the leading-zero count of that byte tells them.
proof fn lemma_byte_bits(bytes: Seq<u8>, at: int, byte: u8, zeros: int)
    requires
        0 <= at < bytes.len(),
        bytes[at] == byte,
        zeros == vstd::std_specs::bits::u8_leading_zeros(byte),
    ensures
        forall|j: int| 8 * at <= j < 8 * at + zeros ==> !#[trigger] bit_at(bytes, j),
        zeros < 8 ==> bit_at(bytes, 8 * at + zeros),
{
    vstd::std_specs::bits::axiom_u8_leading_zeros(byte);
    assert forall|j: int| 8 * at <= j < 8 * at + zeros implies !#[trigger] bit_at(bytes, j) by {
        assert(j / 8 == at && j % 8 == j - 8 * at);
        let shift: u8 = (7 - j % 8) as u8;
        assert((byte >> shift) & 1u8 == 0u8);
    }
    if zeros < 8 {
        let j: int = 8 * at + zeros;
        assert(j / 8 == at && j % 8 == zeros);
        let shift: u8 = (7 - zeros) as u8;
        assert((byte >> shift) & 1u8 != 0u8);
        assert((byte >> shift) & 1u8 == 0u8 || (byte >> shift) & 1u8 == 1u8) by (bit_vector);
    }
}

fn hex_digit(nibble: u8) -> (digit: char)
    requires
        nibble < 16,
    ensures
        digit == spec_hex_digit(nibble),
{
    if nibble < 10 {
        (48 + nibble) as char
    } else {
        (87 + nibble) as char
    }
}

/// The value of a hexadecimal digit of either case.
pub fn decode_hex_digit(byte: u8) -> (result: Result<u8, String>)
    ensures
        match result {
            Ok(value) => hex_value(byte) == Some(value) && value < 16,
            Err(message) => hex_value(byte) is None && message@ == "invalid hex digit"@,
        },
{
    if 48 <= byte && byte <= 57 {
        Ok(byte - 48)
    } else if 97 <= byte && byte <= 102 {
        Ok(byte - 87)
    } else if 65 <= byte && byte <= 70 {
        Ok(byte - 55)
    } else {
        Err("invalid hex digit".to_string())
    }
}

} // verus!
