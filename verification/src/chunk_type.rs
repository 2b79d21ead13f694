//! Four-letter chunk type codes and the properties encoded in their case.

use crate::text::{latin, push_byte};
use vstd::prelude::*;
use vstd::std_specs::convert::TryFromSpecImpl;
use vstd::string::{StringExecFns, StringSliceAdditionalSpecFns};

verus! {

/// The role a type code plays in the image format.
#[derive(Debug, PartialEq, Eq, Clone, Copy, Structural)]
pub enum Types {
    /// Image header.
    IHDR,
    /// Image data.
    IDAT,
    /// Palette.
    PLTE,
    /// End of image.
    IEND,
    /// Any code that is none of the four above.
    ANCILLARY,
}

/// Why a candidate type code was rejected.
#[derive(Debug, PartialEq, Eq, Clone, Copy, Structural)]
pub enum ChunkTypeError {
    /// The input is not exactly four bytes long.
    InvalidLength,
    /// Some byte is not an ASCII letter.
    NotASCII,
}

/// The rejection in words.
pub open spec fn type_error_message(error: ChunkTypeError) -> Seq<char> {
    match error {
        ChunkTypeError::InvalidLength => "Input must be exactly 4 bytes/characters long"@,
        ChunkTypeError::NotASCII => "Not all data is ASCII"@,
    }
}

impl ChunkTypeError {
    /// The rejection in words.
    pub fn to_string(&self) -> (text: String)
        ensures
            text@ == type_error_message(*self),
    {
        match self {
            ChunkTypeError::InvalidLength => String::from_str(
                "Input must be exactly 4 bytes/characters long",
            ),
            ChunkTypeError::NotASCII => String::from_str("Not all data is ASCII"),
        }
    }
}

/// The code of `A`.
pub const UPPER_A: u8 = 65;

/// The code of `Z`.
pub const UPPER_Z: u8 = 90;

/// The code of `a`.
pub const LOWER_A: u8 = 97;

/// The code of `z`.
pub const LOWER_Z: u8 = 122;

/// `b` is one of `A`..=`Z`.
pub open spec fn is_upper(b: u8) -> bool {
    UPPER_A <= b <= UPPER_Z
}

/// `b` is one of `a`..=`z`.
pub open spec fn is_lower(b: u8) -> bool {
    LOWER_A <= b <= LOWER_Z
}

/// `b` is an ASCII letter.
pub open spec fn is_letter(b: u8) -> bool {
    is_upper(b) || is_lower(b)
}

/// Every byte of `bytes` is an ASCII letter.
pub open spec fn all_letters(bytes: Seq<u8>) -> bool {
    forall|i: int| 0 <= i < bytes.len() ==> is_letter(#[trigger] bytes[i])
}

/// `code` is a legal type code: four ASCII letters.
pub open spec fn is_type_code(code: Seq<u8>) -> bool {
    code.len() == 4 && all_letters(code)
}

/// The bytes of `IHDR`.
pub open spec fn ihdr_code() -> Seq<u8> {
    seq![73u8, 72u8, 68u8, 82u8]
}

/// The bytes of `IDAT`.
pub open spec fn idat_code() -> Seq<u8> {
    seq![73u8, 68u8, 65u8, 84u8]
}

/// The bytes of `PLTE`.
pub open spec fn plte_code() -> Seq<u8> {
    seq![80u8, 76u8, 84u8, 69u8]
}

/// The bytes of `IEND`.
pub open spec fn iend_code() -> Seq<u8> {
    seq![73u8, 69u8, 78u8, 68u8]
}

/// The role of a type code: one of the four well-known codes, or ancillary.
pub open spec fn role_of(code: Seq<u8>) -> Types {
    if code == ihdr_code() {
        Types::IHDR
    } else if code == idat_code() {
        Types::IDAT
    } else if code == plte_code() {
        Types::PLTE
    } else if code == iend_code() {
        Types::IEND
    } else {
        Types::ANCILLARY
    }
}

/// Two codes of four bytes are the same code exactly where they agree byte
/// by byte.
proof fn lemma_same_code(x: Seq<u8>, y: Seq<u8>)
    requires
        x.len() == 4,
        y.len() == 4,
    ensures
        x == y <==> x[0] == y[0] && x[1] == y[1] && x[2] == y[2] && x[3] == y[3],
{
    if x[0] == y[0] && x[1] == y[1] && x[2] == y[2] && x[3] == y[3] {
        assert(x =~= y);
    }
}

/// Each of the four well-known roles belongs to one code only.
pub proof fn lemma_role_of_known_codes(code: Seq<u8>)
    ensures
        role_of(code) == Types::IHDR <==> code == ihdr_code(),
        role_of(code) == Types::IDAT <==> code == idat_code(),
        role_of(code) == Types::PLTE <==> code == plte_code(),
        role_of(code) == Types::IEND <==> code == iend_code(),
{
    assert(ihdr_code()[1] != idat_code()[1]);
    assert(ihdr_code()[0] != plte_code()[0]);
    assert(ihdr_code()[1] != iend_code()[1]);
    assert(idat_code()[0] != plte_code()[0]);
    assert(idat_code()[1] != iend_code()[1]);
    assert(plte_code()[0] != iend_code()[0]);
}

/// What validating `bytes` as a type code yields: the code itself, or the
/// reason for its rejection. The length is checked before the letters.
pub open spec fn parse_type_code(bytes: Seq<u8>) -> Result<Seq<u8>, ChunkTypeError> {
    if bytes.len() != 4 {
        Err(ChunkTypeError::InvalidLength)
    } else if !all_letters(bytes) {
        Err(ChunkTypeError::NotASCII)
    } else {
        Ok(bytes)
    }
}

/// A validated four-letter type code together with its role.
#[derive(Debug, PartialEq, Eq, Clone, Copy)]
pub struct ChunkType {
    typ: Types,
    code: [u8; 4],
}

impl View for ChunkType {
    type V = Seq<u8>;

    /// The four bytes of the code.
    closed spec fn view(&self) -> Seq<u8> {
        self.code@
    }
}

fn byte_is_upper(b: u8) -> (r: bool)
    ensures
        r == is_upper(b),
{
    UPPER_A <= b && b <= UPPER_Z
}

fn byte_is_letter(b: u8) -> (r: bool)
    ensures
        r == is_letter(b),
{
    (UPPER_A <= b && b <= UPPER_Z) || (LOWER_A <= b && b <= LOWER_Z)
}

impl ChunkType {
    /// The role stored with the code.
    pub closed spec fn role(&self) -> Types {
        self.typ
    }

    /// The code is four ASCII letters and the stored role is the code's role.
    #[verifier::type_invariant]
    pub open spec fn wf(&self) -> bool {
        is_type_code(self@) && self.role() == role_of(self@)
    }

    /// Classifies four bytes as one of the well-known roles.
    pub fn _get_type_from_code(code: [u8; 4]) -> (typ: Types)
        ensures
            typ == role_of(code@),
    {
        proof {
            lemma_same_code(code@, ihdr_code());
            lemma_same_code(code@, idat_code());
            lemma_same_code(code@, plte_code());
            lemma_same_code(code@, iend_code());
        }
        let (a, b, c, d) = (code[0], code[1], code[2], code[3]);
        if a == 73 && b == 72 && c == 68 && d == 82 {
            Types::IHDR
        } else if a == 73 && b == 68 && c == 65 && d == 84 {
            Types::IDAT
        } else if a == 80 && b == 76 && c == 84 && d == 69 {
            Types::PLTE
        } else if a == 73 && b == 69 && c == 78 && d == 68 {
            Types::IEND
        } else {
            Types::ANCILLARY
        }
    }

    /// Validates `bytes` as a type code.
    pub fn from_bytes(bytes: &[u8]) -> (r: Result<ChunkType, ChunkTypeError>)
        ensures
            match r {
                Ok(t) => parse_type_code(bytes@) == Ok::<Seq<u8>, ChunkTypeError>(t@),
                Err(e) => parse_type_code(bytes@) == Err::<Seq<u8>, ChunkTypeError>(e),
            },
    {
        if bytes.len() != 4 {
            return Err(ChunkTypeError::InvalidLength);
        }
        let mut i: usize = 0;
        while i < 4
            invariant
                bytes@.len() == 4,
                i <= 4,
                forall|j: int| 0 <= j < i ==> is_letter(#[trigger] bytes@[j]),
            decreases 4 - i,
        {
            if !byte_is_letter(bytes[i]) {
                return Err(ChunkTypeError::NotASCII);
            }
            i += 1;
        }
        let code: [u8; 4] = [bytes[0], bytes[1], bytes[2], bytes[3]];
        assert(code@ =~= bytes@);
        let typ = ChunkType::_get_type_from_code(code);
        Ok(ChunkType { typ, code })
    }

    /// The four bytes of the code.
    pub fn bytes(&self) -> (code: [u8; 4])
        ensures
            code@ == self@,
    {
        self.code
    }

    /// Validates the bytes of `text` as a type code.
    pub fn from_str(text: &str) -> (r: Result<ChunkType, ChunkTypeError>)
        ensures
            match r {
                Ok(t) => parse_type_code(text.spec_bytes()) == Ok::<Seq<u8>, ChunkTypeError>(t@),
                Err(e) => parse_type_code(text.spec_bytes()) == Err::<Seq<u8>, ChunkTypeError>(e),
            },
    {
        ChunkType::from_bytes(text.as_bytes())
    }

    /// The code is valid in full: every byte is an ASCII letter and the
    /// reserved bit is as the format demands. The letters are guaranteed by
    /// construction, so only the reserved bit decides.
    pub fn is_valid(&self) -> (r: bool)
        ensures
            r == (all_letters(self@) && is_upper(self@[2])),
            r == is_upper(self@[2]),
    {
        proof {
            use_type_invariant(self);
        }
        self.is_reserved_bit_valid()
    }

    /// The first letter is upper case: the chunk is critical.
    pub fn is_critical(&self) -> (r: bool)
        ensures
            r == is_upper(self@[0]),
    {
        byte_is_upper(self.code[0])
    }

    /// The second letter is upper case: the chunk is public.
    pub fn is_public(&self) -> (r: bool)
        ensures
            r == is_upper(self@[1]),
    {
        byte_is_upper(self.code[1])
    }

    /// The third letter is upper case, as the format demands of every code.
    pub fn is_reserved_bit_valid(&self) -> (r: bool)
        ensures
            r == is_upper(self@[2]),
    {
        byte_is_upper(self.code[2])
    }

    /// The fourth letter is lower case: the chunk is safe to copy.
    pub fn is_safe_to_copy(&self) -> (r: bool)
        ensures
            r == is_lower(self@[3]),
    {
        proof {
            use_type_invariant(self);
        }
        !byte_is_upper(self.code[3])
    }

    /// The role of the code.
    pub fn get_type(&self) -> (typ: Types)
        ensures
            typ == role_of(self@),
    {
        proof {
            use_type_invariant(self);
        }
        self.typ
    }

    /// The code as text: its four letters.
    pub fn to_string(&self) -> (text: String)
        ensures
            text@ == latin(self@),
    {
        let mut text = String::new();
        let mut i: usize = 0;
        while i < 4
            invariant
                i <= 4,
                self@.len() == 4,
                text@ == latin(self@.take(i as int)),
            decreases 4 - i,
        {
            push_byte(&mut text, self.code[i]);
            assert(text@ =~= latin(self@.take(i + 1)));
            i += 1;
        }
        assert(self@.take(4) =~= self@);
        text
    }
}

impl TryFrom<[u8; 4]> for ChunkType {
    type Error = ChunkTypeError;

    fn try_from(value: [u8; 4]) -> (r: Result<ChunkType, ChunkTypeError>)
        ensures
            match r {
                Ok(t) => all_letters(value@) && t@ == value@,
                Err(e) => !all_letters(value@) && e == ChunkTypeError::NotASCII,
            },
    {
        let r = ChunkType::from_bytes(value.as_slice());
        proof {
            if let Ok(t) = r {
                use_type_invariant(&t);
                assert(t.code =~= value);
            }
        }
        r
    }
}

impl TryFromSpecImpl<[u8; 4]> for ChunkType {
    open spec fn obeys_try_from_spec() -> bool {
        true
    }

    closed spec fn try_from_spec(v: [u8; 4]) -> Result<Self, Self::Error> {
        if all_letters(v@) {
            Ok(ChunkType { typ: role_of(v@), code: v })
        } else {
            Err(ChunkTypeError::NotASCII)
        }
    }
}

impl std::str::FromStr for ChunkType {
    type Err = ChunkTypeError;

    fn from_str(text: &str) -> (r: Result<ChunkType, ChunkTypeError>)
        ensures
            match r {
                Ok(t) => parse_type_code(text.spec_bytes()) == Ok::<Seq<u8>, ChunkTypeError>(t@),
                Err(e) => parse_type_code(text.spec_bytes()) == Err::<Seq<u8>, ChunkTypeError>(e),
            },
    {
        ChunkType::from_str(text)
    }
}

} // verus!
