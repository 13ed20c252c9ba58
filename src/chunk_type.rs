use vstd::prelude::*;
use vstd::string::StrSliceExecFns;

use crate::error::PngError;
use crate::text::{all_ascii, ascii_text, ascii_to_string};

verus! {

/// An ASCII letter, upper or lower case.
pub open spec fn is_ascii_letter(b: u8) -> bool {
    (65 <= b && b <= 90) || (97 <= b && b <= 122)
}

pub open spec fn is_ascii_upper(b: u8) -> bool {
    65 <= b && b <= 90
}

pub open spec fn is_letter_char(c: char) -> bool {
    ('A' <= c && c <= 'Z') || ('a' <= c && c <= 'z')
}

/// Four bytes, each an ASCII letter: what a chunk type may hold.
pub open spec fn valid_type_bytes(b: Seq<u8>) -> bool {
    &&& b.len() == 4
    &&& forall|i: int| 0 <= i < 4 ==> is_ascii_letter(#[trigger] b[i])
}

/// Bit 5 of a byte, the bit that tells lower from upper case in a letter.
pub open spec fn bit5(b: u8) -> bool {
    (b >> 5u8) & 1u8 != 0u8
}

/// Of a letter, bit 5 is set exactly when it is lower case.
pub proof fn lemma_bit5_is_case(b: u8)
    requires
        is_ascii_letter(b),
    ensures
        bit5(b) <==> !is_ascii_upper(b),
{
    assert(((65u8 <= b && b <= 90u8) || (97u8 <= b && b <= 122u8)) ==> (((b >> 5u8) & 1u8 != 0u8)
        <==> !(65u8 <= b && b <= 90u8))) by (bit_vector);
}

/// The four-letter name of a chunk; the case of each letter carries one
/// property of the chunk.
#[derive(Debug, Clone, Copy)]
pub struct ChunkType {
    buf: [u8; 4],
}

impl View for ChunkType {
    type V = Seq<u8>;

    closed spec fn view(&self) -> Seq<u8> {
        self.buf@
    }
}

impl PartialEq for ChunkType {
    fn eq(&self, other: &ChunkType) -> (r: bool)
        ensures
            r == (self@ == other@),
    {
        self.same_as(other)
    }
}

impl vstd::std_specs::cmp::PartialEqSpecImpl for ChunkType {
    open spec fn obeys_eq_spec() -> bool {
        true
    }

    open spec fn eq_spec(&self, other: &ChunkType) -> bool {
        self@ == other@
    }
}

impl Eq for ChunkType {

}

impl ChunkType {
    #[verifier::type_invariant]
    spec fn inv(self) -> bool {
        valid_type_bytes(self.buf@)
    }

    /// Whether two types hold the same four bytes.
    pub fn same_as(&self, other: &ChunkType) -> (r: bool)
        ensures
            r == (self@ == other@),
    {
        let r = self.buf[0] == other.buf[0] && self.buf[1] == other.buf[1] && self.buf[2]
            == other.buf[2] && self.buf[3] == other.buf[3];
        assert(r ==> self.buf@ =~= other.buf@);
        r
    }

    /// Makes a chunk type of four bytes, which must all be ASCII letters.
    pub fn parse(bytes: [u8; 4]) -> (r: Result<ChunkType, PngError>)
        ensures
            r matches Ok(t) ==> valid_type_bytes(bytes@) && t@ == bytes@,
            r matches Err(e) ==> !valid_type_bytes(bytes@) && e == PngError::InvalidChunkType,
    {
        let mut i: usize = 0;
        while i < 4
            invariant
                0 <= i <= 4,
                bytes@.len() == 4,
                forall|j: int| 0 <= j < i ==> is_ascii_letter(#[trigger] bytes@[j]),
            decreases 4 - i,
        {
            let b = bytes[i];
            if !((65 <= b && b <= 90) || (97 <= b && b <= 122)) {
                return Err(PngError::InvalidChunkType);
            }
            i = i + 1;
        }
        Ok(ChunkType { buf: bytes })
    }

    /// Makes a chunk type of a string, which must be four ASCII letters.
    pub fn parse_str(s: &str) -> (r: Result<ChunkType, PngError>)
        ensures
            r matches Ok(t) ==> {
                &&& s@.len() == 4
                &&& forall|i: int| 0 <= i < 4 ==> is_letter_char(#[trigger] s@[i])
                &&& t@ == s@.map_values(|c: char| c as u8)
            },
            r matches Err(e) ==> e == PngError::InvalidChunkType && !(s@.len() == 4 && forall|
                i: int,
            |
                0 <= i < 4 ==> is_letter_char(#[trigger] s@[i])),
    {
        if s.unicode_len() != 4 {
            return Err(PngError::InvalidChunkType);
        }
        let mut buf: [u8; 4] = [0u8; 4];
        let mut i: usize = 0;
        while i < 4
            invariant
                0 <= i <= 4,
                s@.len() == 4,
                buf@.len() == 4,
                forall|j: int| 0 <= j < i ==> is_letter_char(#[trigger] s@[j]),
                forall|j: int| 0 <= j < i ==> #[trigger] buf@[j] == s@[j] as u8,
                forall|j: int| 0 <= j < i ==> is_ascii_letter(#[trigger] buf@[j]),
            decreases 4 - i,
        {
            let c = s.get_char(i);
            if !(('A' <= c && c <= 'Z') || ('a' <= c && c <= 'z')) {
                return Err(PngError::InvalidChunkType);
            }
            buf[i] = c as u8;
            i = i + 1;
        }
        assert(buf@ =~= s@.map_values(|c: char| c as u8));
        Ok(ChunkType { buf })
    }

    /// The four bytes of the type, which are always ASCII letters.
    pub fn bytes(&self) -> (r: [u8; 4])
        ensures
            r@ == self@,
            valid_type_bytes(self@),
    {
        proof {
            use_type_invariant(self);
        }
        self.buf
    }

    /// Critical chunks have an upper-case first letter (bit 5 of the first byte clear).
    pub fn is_critical(&self) -> (r: bool)
        ensures
            r == !bit5(self@[0]),
            r == is_ascii_upper(self@[0]),
    {
        proof {
            use_type_invariant(self);
            lemma_bit5_is_case(self.buf@[0]);
        }
        self.buf[0] >> 5 & 1 == 0
    }

    /// Public chunks have an upper-case second letter (bit 5 of the second byte clear).
    pub fn is_public(&self) -> (r: bool)
        ensures
            r == !bit5(self@[1]),
            r == is_ascii_upper(self@[1]),
    {
        proof {
            use_type_invariant(self);
            lemma_bit5_is_case(self.buf@[1]);
        }
        self.buf[1] >> 5 & 1 == 0
    }

    /// The reserved bit (bit 5 of the third byte) must be clear: an upper-case third letter.
    pub fn is_reserved_bit_valid(&self) -> (r: bool)
        ensures
            r == !bit5(self@[2]),
            r == is_ascii_upper(self@[2]),
    {
        proof {
            use_type_invariant(self);
            lemma_bit5_is_case(self.buf@[2]);
        }
        self.buf[2] >> 5 & 1 == 0
    }

    /// Safe-to-copy chunks have a lower-case fourth letter (bit 5 of the fourth byte set).
    pub fn is_safe_to_copy(&self) -> (r: bool)
        ensures
            r == bit5(self@[3]),
            r == !is_ascii_upper(self@[3]),
    {
        proof {
            use_type_invariant(self);
            lemma_bit5_is_case(self.buf@[3]);
        }
        self.buf[3] >> 5 & 1 != 0
    }

    /// A type is valid when its reserved bit is clear and all four bytes are
    /// letters; the second part always holds of a constructed type.
    pub fn is_valid(&self) -> (r: bool)
        ensures
            r == (!bit5(self@[2]) && valid_type_bytes(self@)),
            r == is_ascii_upper(self@[2]),
    {
        proof {
            use_type_invariant(self);
        }
        self.is_reserved_bit_valid()
    }

    /// The four letters as a string.
    pub fn to_string(&self) -> (r: String)
        ensures
            r@ == ascii_text(self@),
    {
        proof {
            use_type_invariant(self);
        }
        let v: Vec<u8> = vec![self.buf[0], self.buf[1], self.buf[2], self.buf[3]];
        assert(v@ =~= self.buf@);
        assert(all_ascii(v@));
        ascii_to_string(v)
    }
}

impl TryFrom<[u8; 4]> for ChunkType {
    type Error = PngError;

    fn try_from(value: [u8; 4]) -> (r: Result<ChunkType, PngError>)
        ensures
            r matches Ok(t) ==> valid_type_bytes(value@) && t@ == value@,
            r matches Err(e) ==> !valid_type_bytes(value@) && e == PngError::InvalidChunkType,
    {
        let r = ChunkType::parse(value);
        proof {
            if let Ok(t) = r {
                broadcast use vstd::array::axiom_array_ext_equal;

                assert(t.buf@ =~= value@);
                assert(t.buf == value);
                assert(t == ChunkType { buf: value });
            }
        }
        r
    }
}

impl vstd::std_specs::convert::TryFromSpecImpl<[u8; 4]> for ChunkType {
    open spec fn obeys_try_from_spec() -> bool {
        true
    }

    closed spec fn try_from_spec(value: [u8; 4]) -> Result<ChunkType, PngError> {
        if valid_type_bytes(value@) {
            Ok(ChunkType { buf: value })
        } else {
            Err(PngError::InvalidChunkType)
        }
    }
}

impl std::str::FromStr for ChunkType {
    type Err = PngError;

    fn from_str(s: &str) -> (r: Result<ChunkType, PngError>)
        ensures
            r matches Ok(t) ==> {
                &&& s@.len() == 4
                &&& forall|i: int| 0 <= i < 4 ==> is_letter_char(#[trigger] s@[i])
                &&& t@ == s@.map_values(|c: char| c as u8)
            },
            r matches Err(e) ==> e == PngError::InvalidChunkType && !(s@.len() == 4 && forall|
                i: int,
            |
                0 <= i < 4 ==> is_letter_char(#[trigger] s@[i])),
    {
        ChunkType::parse_str(s)
    }
}

} // verus!
