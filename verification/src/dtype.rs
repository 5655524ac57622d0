//! Element kinds of a tensor, their header tokens and their widths.

use vstd::prelude::*;
use crate::text::str_eq;

verus! {

/// The numeric kind of a tensor's elements.
#[derive(Clone, Copy, Debug, PartialEq, Eq, Structural)]
pub enum Dtype {
    /// Boolean, one byte each.
    Bool,
    /// 4-bit microscaling float.
    F4,
    /// 6-bit microscaling float, 2 exponent bits.
    F6E2M3,
    /// 6-bit microscaling float, 3 exponent bits.
    F6E3M2,
    /// Unsigned byte.
    U8,
    /// Signed byte.
    I8,
    /// 8-bit float, 5 exponent bits.
    F8E5M2,
    /// 8-bit float, 4 exponent bits.
    F8E4M3,
    /// 8-bit exponent-only scale.
    F8E8M0,
    /// 8-bit float, 4 exponent bits, finite with unsigned zero.
    F8E4M3Fnuz,
    /// 8-bit float, 5 exponent bits, finite with unsigned zero.
    F8E5M2Fnuz,
    /// Signed 16-bit integer.
    I16,
    /// Unsigned 16-bit integer.
    U16,
    /// Half-precision float.
    F16,
    /// Brain float.
    Bf16,
    /// Signed 32-bit integer.
    I32,
    /// Unsigned 32-bit integer.
    U32,
    /// Single-precision IEEE-754 float.
    F32,
    /// Complex number of two 32-bit parts.
    C64,
    /// Double-precision float.
    F64,
    /// Signed 64-bit integer.
    I64,
    /// Unsigned 64-bit integer.
    U64,
}

impl Dtype {
    /// Width of one element in bits.
    pub open spec fn spec_bit_width(self) -> nat {
        match self {
            Dtype::Bool => 8,
            Dtype::F4 => 4,
            Dtype::F6E2M3 => 6,
            Dtype::F6E3M2 => 6,
            Dtype::U8 => 8,
            Dtype::I8 => 8,
            Dtype::F8E5M2 => 8,
            Dtype::F8E4M3 => 8,
            Dtype::F8E8M0 => 8,
            Dtype::F8E4M3Fnuz => 8,
            Dtype::F8E5M2Fnuz => 8,
            Dtype::I16 => 16,
            Dtype::U16 => 16,
            Dtype::F16 => 16,
            Dtype::Bf16 => 16,
            Dtype::I32 => 32,
            Dtype::U32 => 32,
            Dtype::F32 => 32,
            Dtype::C64 => 64,
            Dtype::F64 => 64,
            Dtype::I64 => 64,
            Dtype::U64 => 64,
        }
    }

    /// Width of one element in bits.
    pub fn bit_width(self) -> (w: u8)
        ensures
            w == self.spec_bit_width(),
            4 <= w <= 64,
    {
        match self {
            Dtype::Bool => 8,
            Dtype::F4 => 4,
            Dtype::F6E2M3 => 6,
            Dtype::F6E3M2 => 6,
            Dtype::U8 => 8,
            Dtype::I8 => 8,
            Dtype::F8E5M2 => 8,
            Dtype::F8E4M3 => 8,
            Dtype::F8E8M0 => 8,
            Dtype::F8E4M3Fnuz => 8,
            Dtype::F8E5M2Fnuz => 8,
            Dtype::I16 => 16,
            Dtype::U16 => 16,
            Dtype::F16 => 16,
            Dtype::Bf16 => 16,
            Dtype::I32 => 32,
            Dtype::U32 => 32,
            Dtype::F32 => 32,
            Dtype::C64 => 64,
            Dtype::F64 => 64,
            Dtype::I64 => 64,
            Dtype::U64 => 64,
        }
    }

    /// The token that names this kind in a header.
    pub open spec fn spec_token(self) -> Seq<char> {
        match self {
            Dtype::Bool => "BOOL"@,
            Dtype::F4 => "F4"@,
            Dtype::F6E2M3 => "F6_E2M3"@,
            Dtype::F6E3M2 => "F6_E3M2"@,
            Dtype::U8 => "U8"@,
            Dtype::I8 => "I8"@,
            Dtype::F8E5M2 => "F8_E5M2"@,
            Dtype::F8E4M3 => "F8_E4M3"@,
            Dtype::F8E8M0 => "F8_E8M0"@,
            Dtype::F8E4M3Fnuz => "F8_E4M3FNUZ"@,
            Dtype::F8E5M2Fnuz => "F8_E5M2FNUZ"@,
            Dtype::I16 => "I16"@,
            Dtype::U16 => "U16"@,
            Dtype::F16 => "F16"@,
            Dtype::Bf16 => "BF16"@,
            Dtype::I32 => "I32"@,
            Dtype::U32 => "U32"@,
            Dtype::F32 => "F32"@,
            Dtype::C64 => "C64"@,
            Dtype::F64 => "F64"@,
            Dtype::I64 => "I64"@,
            Dtype::U64 => "U64"@,
        }
    }

    /// The token that names this kind in a header.
    pub fn token(self) -> (t: &'static str)
        ensures
            t@ == self.spec_token(),
    {
        match self {
            Dtype::Bool => "BOOL",
            Dtype::F4 => "F4",
            Dtype::F6E2M3 => "F6_E2M3",
            Dtype::F6E3M2 => "F6_E3M2",
            Dtype::U8 => "U8",
            Dtype::I8 => "I8",
            Dtype::F8E5M2 => "F8_E5M2",
            Dtype::F8E4M3 => "F8_E4M3",
            Dtype::F8E8M0 => "F8_E8M0",
            Dtype::F8E4M3Fnuz => "F8_E4M3FNUZ",
            Dtype::F8E5M2Fnuz => "F8_E5M2FNUZ",
            Dtype::I16 => "I16",
            Dtype::U16 => "U16",
            Dtype::F16 => "F16",
            Dtype::Bf16 => "BF16",
            Dtype::I32 => "I32",
            Dtype::U32 => "U32",
            Dtype::F32 => "F32",
            Dtype::C64 => "C64",
            Dtype::F64 => "F64",
            Dtype::I64 => "I64",
            Dtype::U64 => "U64",
        }
    }

    /// The kind that a header token names, if it names one.
    pub open spec fn spec_from_token(token: Seq<char>) -> Option<Dtype> {
        if token == "BOOL"@ {
            Some(Dtype::Bool)
        } else if token == "F4"@ {
            Some(Dtype::F4)
        } else if token == "F6_E2M3"@ {
            Some(Dtype::F6E2M3)
        } else if token == "F6_E3M2"@ {
            Some(Dtype::F6E3M2)
        } else if token == "U8"@ {
            Some(Dtype::U8)
        } else if token == "I8"@ {
            Some(Dtype::I8)
        } else if token == "F8_E5M2"@ {
            Some(Dtype::F8E5M2)
        } else if token == "F8_E4M3"@ {
            Some(Dtype::F8E4M3)
        } else if token == "F8_E8M0"@ {
            Some(Dtype::F8E8M0)
        } else if token == "F8_E4M3FNUZ"@ {
            Some(Dtype::F8E4M3Fnuz)
        } else if token == "F8_E5M2FNUZ"@ {
            Some(Dtype::F8E5M2Fnuz)
        } else if token == "I16"@ {
            Some(Dtype::I16)
        } else if token == "U16"@ {
            Some(Dtype::U16)
        } else if token == "F16"@ {
            Some(Dtype::F16)
        } else if token == "BF16"@ {
            Some(Dtype::Bf16)
        } else if token == "I32"@ {
            Some(Dtype::I32)
        } else if token == "U32"@ {
            Some(Dtype::U32)
        } else if token == "F32"@ {
            Some(Dtype::F32)
        } else if token == "C64"@ {
            Some(Dtype::C64)
        } else if token == "F64"@ {
            Some(Dtype::F64)
        } else if token == "I64"@ {
            Some(Dtype::I64)
        } else if token == "U64"@ {
            Some(Dtype::U64)
        } else {
            None
        }
    }

    /// Reads a header token; `None` for a token that names no kind.
    pub fn from_token(token: &str) -> (r: Option<Dtype>)
        ensures
            r == Self::spec_from_token(token@),
    {
        if str_eq(token, "BOOL") {
            Some(Dtype::Bool)
        } else if str_eq(token, "F4") {
            Some(Dtype::F4)
        } else if str_eq(token, "F6_E2M3") {
            Some(Dtype::F6E2M3)
        } else if str_eq(token, "F6_E3M2") {
            Some(Dtype::F6E3M2)
        } else if str_eq(token, "U8") {
            Some(Dtype::U8)
        } else if str_eq(token, "I8") {
            Some(Dtype::I8)
        } else if str_eq(token, "F8_E5M2") {
            Some(Dtype::F8E5M2)
        } else if str_eq(token, "F8_E4M3") {
            Some(Dtype::F8E4M3)
        } else if str_eq(token, "F8_E8M0") {
            Some(Dtype::F8E8M0)
        } else if str_eq(token, "F8_E4M3FNUZ") {
            Some(Dtype::F8E4M3Fnuz)
        } else if str_eq(token, "F8_E5M2FNUZ") {
            Some(Dtype::F8E5M2Fnuz)
        } else if str_eq(token, "I16") {
            Some(Dtype::I16)
        } else if str_eq(token, "U16") {
            Some(Dtype::U16)
        } else if str_eq(token, "F16") {
            Some(Dtype::F16)
        } else if str_eq(token, "BF16") {
            Some(Dtype::Bf16)
        } else if str_eq(token, "I32") {
            Some(Dtype::I32)
        } else if str_eq(token, "U32") {
            Some(Dtype::U32)
        } else if str_eq(token, "F32") {
            Some(Dtype::F32)
        } else if str_eq(token, "C64") {
            Some(Dtype::C64)
        } else if str_eq(token, "F64") {
            Some(Dtype::F64)
        } else if str_eq(token, "I64") {
            Some(Dtype::I64)
        } else if str_eq(token, "U64") {
            Some(Dtype::U64)
        } else {
            None
        }
    }

    /// Whether elements of this kind are 4-byte IEEE-754 floats, the one
    /// kind whose payload is rescaled.
    pub open spec fn spec_is_f32(self) -> bool {
        self == Dtype::F32
    }

    /// Whether elements of this kind are 4-byte IEEE-754 floats.
    pub fn is_f32(self) -> (r: bool)
        ensures
            r == self.spec_is_f32(),
    {
        match self {
            Dtype::F32 => true,
            _ => false,
        }
    }
}

/// No two kinds share a token: reading back the token of a kind gives that
/// kind.
pub proof fn lemma_token_round_trip(d: Dtype)
    ensures
        Dtype::spec_from_token(d.spec_token()) == Some(d),
{
    reveal_strlit("BOOL");
    reveal_strlit("F4");
    reveal_strlit("F6_E2M3");
    reveal_strlit("F6_E3M2");
    reveal_strlit("U8");
    reveal_strlit("I8");
    reveal_strlit("F8_E5M2");
    reveal_strlit("F8_E4M3");
    reveal_strlit("F8_E8M0");
    reveal_strlit("F8_E4M3FNUZ");
    reveal_strlit("F8_E5M2FNUZ");
    reveal_strlit("I16");
    reveal_strlit("U16");
    reveal_strlit("F16");
    reveal_strlit("BF16");
    reveal_strlit("I32");
    reveal_strlit("U32");
    reveal_strlit("F32");
    reveal_strlit("C64");
    reveal_strlit("F64");
    reveal_strlit("I64");
    reveal_strlit("U64");
    assert("BOOL"@.len() == 4);
    assert("F4"@.len() == 2);
    assert("F6_E2M3"@.len() == 7);
    assert("F6_E3M2"@.len() == 7);
    assert("U8"@.len() == 2);
    assert("I8"@.len() == 2);
    assert("F8_E5M2"@.len() == 7);
    assert("F8_E4M3"@.len() == 7);
    assert("F8_E8M0"@.len() == 7);
    assert("F8_E4M3FNUZ"@.len() == 11);
    assert("F8_E5M2FNUZ"@.len() == 11);
    assert("I16"@.len() == 3);
    assert("U16"@.len() == 3);
    assert("F16"@.len() == 3);
    assert("BF16"@.len() == 4);
    assert("I32"@.len() == 3);
    assert("U32"@.len() == 3);
    assert("F32"@.len() == 3);
    assert("C64"@.len() == 3);
    assert("F64"@.len() == 3);
    assert("I64"@.len() == 3);
    assert("U64"@.len() == 3);
    match d {
        Dtype::Bool => {
            assert(Dtype::spec_from_token("BOOL"@) == Some(Dtype::Bool));
        },
        Dtype::F4 => {
            assert(Dtype::spec_from_token("F4"@) == Some(Dtype::F4));
        },
        Dtype::F6E2M3 => {
            assert(Dtype::spec_from_token("F6_E2M3"@) == Some(Dtype::F6E2M3));
        },
        Dtype::F6E3M2 => {
            assert("F6_E2M3"@[4] != "F6_E3M2"@[4]);
            assert(Dtype::spec_from_token("F6_E3M2"@) == Some(Dtype::F6E3M2));
        },
        Dtype::U8 => {
            assert("F4"@[0] != "U8"@[0]);
            assert(Dtype::spec_from_token("U8"@) == Some(Dtype::U8));
        },
        Dtype::I8 => {
            assert("F4"@[0] != "I8"@[0]);
            assert("U8"@[0] != "I8"@[0]);
            assert(Dtype::spec_from_token("I8"@) == Some(Dtype::I8));
        },
        Dtype::F8E5M2 => {
            assert("F6_E2M3"@[1] != "F8_E5M2"@[1]);
            assert("F6_E3M2"@[1] != "F8_E5M2"@[1]);
            assert(Dtype::spec_from_token("F8_E5M2"@) == Some(Dtype::F8E5M2));
        },
        Dtype::F8E4M3 => {
            assert("F6_E2M3"@[1] != "F8_E4M3"@[1]);
            assert("F6_E3M2"@[1] != "F8_E4M3"@[1]);
            assert("F8_E5M2"@[4] != "F8_E4M3"@[4]);
            assert(Dtype::spec_from_token("F8_E4M3"@) == Some(Dtype::F8E4M3));
        },
        Dtype::F8E8M0 => {
            assert("F6_E2M3"@[1] != "F8_E8M0"@[1]);
            assert("F6_E3M2"@[1] != "F8_E8M0"@[1]);
            assert("F8_E5M2"@[4] != "F8_E8M0"@[4]);
            assert("F8_E4M3"@[4] != "F8_E8M0"@[4]);
            assert(Dtype::spec_from_token("F8_E8M0"@) == Some(Dtype::F8E8M0));
        },
        Dtype::F8E4M3Fnuz => {
            assert(Dtype::spec_from_token("F8_E4M3FNUZ"@) == Some(Dtype::F8E4M3Fnuz));
        },
        Dtype::F8E5M2Fnuz => {
            assert("F8_E4M3FNUZ"@[4] != "F8_E5M2FNUZ"@[4]);
            assert(Dtype::spec_from_token("F8_E5M2FNUZ"@) == Some(Dtype::F8E5M2Fnuz));
        },
        Dtype::I16 => {
            assert(Dtype::spec_from_token("I16"@) == Some(Dtype::I16));
        },
        Dtype::U16 => {
            assert("I16"@[0] != "U16"@[0]);
            assert(Dtype::spec_from_token("U16"@) == Some(Dtype::U16));
        },
        Dtype::F16 => {
            assert("I16"@[0] != "F16"@[0]);
            assert("U16"@[0] != "F16"@[0]);
            assert(Dtype::spec_from_token("F16"@) == Some(Dtype::F16));
        },
        Dtype::Bf16 => {
            assert("BOOL"@[1] != "BF16"@[1]);
            assert(Dtype::spec_from_token("BF16"@) == Some(Dtype::Bf16));
        },
        Dtype::I32 => {
            assert("I16"@[1] != "I32"@[1]);
            assert("U16"@[0] != "I32"@[0]);
            assert("F16"@[0] != "I32"@[0]);
            assert(Dtype::spec_from_token("I32"@) == Some(Dtype::I32));
        },
        Dtype::U32 => {
            assert("I16"@[0] != "U32"@[0]);
            assert("U16"@[1] != "U32"@[1]);
            assert("F16"@[0] != "U32"@[0]);
            assert("I32"@[0] != "U32"@[0]);
            assert(Dtype::spec_from_token("U32"@) == Some(Dtype::U32));
        },
        Dtype::F32 => {
            assert("I16"@[0] != "F32"@[0]);
            assert("U16"@[0] != "F32"@[0]);
            assert("F16"@[1] != "F32"@[1]);
            assert("I32"@[0] != "F32"@[0]);
            assert("U32"@[0] != "F32"@[0]);
            assert(Dtype::spec_from_token("F32"@) == Some(Dtype::F32));
        },
        Dtype::C64 => {
            assert("I16"@[0] != "C64"@[0]);
            assert("U16"@[0] != "C64"@[0]);
            assert("F16"@[0] != "C64"@[0]);
            assert("I32"@[0] != "C64"@[0]);
            assert("U32"@[0] != "C64"@[0]);
            assert("F32"@[0] != "C64"@[0]);
            assert(Dtype::spec_from_token("C64"@) == Some(Dtype::C64));
        },
        Dtype::F64 => {
            assert("I16"@[0] != "F64"@[0]);
            assert("U16"@[0] != "F64"@[0]);
            assert("F16"@[1] != "F64"@[1]);
            assert("I32"@[0] != "F64"@[0]);
            assert("U32"@[0] != "F64"@[0]);
            assert("F32"@[1] != "F64"@[1]);
            assert("C64"@[0] != "F64"@[0]);
            assert(Dtype::spec_from_token("F64"@) == Some(Dtype::F64));
        },
        Dtype::I64 => {
            assert("I16"@[1] != "I64"@[1]);
            assert("U16"@[0] != "I64"@[0]);
            assert("F16"@[0] != "I64"@[0]);
            assert("I32"@[1] != "I64"@[1]);
            assert("U32"@[0] != "I64"@[0]);
            assert("F32"@[0] != "I64"@[0]);
            assert("C64"@[0] != "I64"@[0]);
            assert("F64"@[0] != "I64"@[0]);
            assert(Dtype::spec_from_token("I64"@) == Some(Dtype::I64));
        },
        Dtype::U64 => {
            assert("I16"@[0] != "U64"@[0]);
            assert("U16"@[1] != "U64"@[1]);
            assert("F16"@[0] != "U64"@[0]);
            assert("I32"@[0] != "U64"@[0]);
            assert("U32"@[1] != "U64"@[1]);
            assert("F32"@[0] != "U64"@[0]);
            assert("C64"@[0] != "U64"@[0]);
            assert("F64"@[0] != "U64"@[0]);
            assert("I64"@[0] != "U64"@[0]);
            assert(Dtype::spec_from_token("U64"@) == Some(Dtype::U64));
        },
    }
}

} // verus!
