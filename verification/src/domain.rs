//! The three value domains and their validity predicates.
//!
//! A domain is the closed set of legal discriminant values: the usable space
//! `[0, 2^mask_width)` of a fixed-width unsigned integer type, the universe
//! of UTF-8 strings, or the universe of byte strings.

use vstd::prelude::*;
use vstd::arithmetic::power2::{lemma2_to64, lemma2_to64_rest, pow2};
use crate::error::CompileError;
use crate::masking::{lemma_pow2_to_128, mask128, mask_of_width};

verus! {

/// One of the five native integer widths a domain can be built on.
#[derive(Clone, Copy, Debug, PartialEq, Eq, Structural)]
pub enum IntegerType {
    U8,
    U16,
    U32,
    U64,
    U128,
}

impl IntegerType {
    /// The native width in bits.
    pub open spec fn spec_width(self) -> nat {
        match self {
            IntegerType::U8 => 8,
            IntegerType::U16 => 16,
            IntegerType::U32 => 32,
            IntegerType::U64 => 64,
            IntegerType::U128 => 128,
        }
    }

    /// The token that names this width: also the only type suffix an integer
    /// literal for this domain may carry.
    pub open spec fn token(self) -> Seq<char> {
        match self {
            IntegerType::U8 => "u8"@,
            IntegerType::U16 => "u16"@,
            IntegerType::U32 => "u32"@,
            IntegerType::U64 => "u64"@,
            IntegerType::U128 => "u128"@,
        }
    }

    /// The native width in bits.
    pub fn get_width(&self) -> (w: u8)
        ensures
            w as nat == self.spec_width(),
    {
        match self {
            IntegerType::U8 => 8,
            IntegerType::U16 => 16,
            IntegerType::U32 => 32,
            IntegerType::U64 => 64,
            IntegerType::U128 => 128,
        }
    }

    /// The token that names this width.
    pub fn to_str(&self) -> (s: String)
        ensures
            s@ == self.token(),
    {
        match self {
            IntegerType::U8 => "u8".to_owned(),
            IntegerType::U16 => "u16".to_owned(),
            IntegerType::U32 => "u32".to_owned(),
            IntegerType::U64 => "u64".to_owned(),
            IntegerType::U128 => "u128".to_owned(),
        }
    }

    /// Resolves a width token; `None` when the token names no width.
    pub fn from_str(s: &String) -> (r: Option<IntegerType>)
        ensures
            match r {
                Some(it) => s@ == it.token(),
                None => forall|it: IntegerType| s@ != #[trigger] it.token(),
            },
    {
        if *s == IntegerType::U8.to_str() {
            Some(IntegerType::U8)
        } else if *s == IntegerType::U16.to_str() {
            Some(IntegerType::U16)
        } else if *s == IntegerType::U32.to_str() {
            Some(IntegerType::U32)
        } else if *s == IntegerType::U64.to_str() {
            Some(IntegerType::U64)
        } else if *s == IntegerType::U128.to_str() {
            Some(IntegerType::U128)
        } else {
            None
        }
    }

    /// Whether a requested mask width fits within the native width.
    pub fn width_valid(&self, width: u8) -> (r: bool)
        ensures
            r == (width as nat <= self.spec_width()),
    {
        width <= self.get_width()
    }

    /// Whether a mask width is exactly the native width.
    pub fn width_match(&self, width: u8) -> (r: bool)
        ensures
            r == (width as nat == self.spec_width()),
    {
        width == self.get_width()
    }

    /// Whether a literal's type suffix names this width.
    pub fn suffix_valid(&self, s: &String) -> (r: bool)
        ensures
            r == (s@ == self.token()),
    {
        *s == self.to_str()
    }

    /// Whether a value fits the native width: the range test behind
    /// discriminant validation.
    pub fn value_valid(&self, value: u128) -> (r: bool)
        ensures
            r == ((value as nat) < pow2(self.spec_width())),
    {
        proof {
            lemma2_to64();
            lemma2_to64_rest();
            lemma_pow2_to_128(128);
        }
        match self {
            IntegerType::U8 => value < 0x100,
            IntegerType::U16 => value < 0x1_0000,
            IntegerType::U32 => value < 0x1_0000_0000,
            IntegerType::U64 => value < 0x1_0000_0000_0000_0000,
            IntegerType::U128 => true,
        }
    }
}

/// A value domain: a bounded integer range or one of the two unbounded
/// string universes.
#[derive(Clone, Copy, Debug, PartialEq, Eq, Structural)]
pub enum Domain {
    /// Fixed-width unsigned integers of which only the low `mask_width` bits
    /// are distinguished.  Values are range-checked against the native width
    /// of `itype` when literals are resolved, and masked to `mask_width`
    /// bits at lookup time.
    Integer { itype: IntegerType, mask_width: u8 },
    /// UTF-8 strings; the empty string is a legal, distinct value.
    Str,
    /// Byte strings; the empty byte string is a legal, distinct value.
    ByteStr,
}

/// The token naming the string domain.
pub open spec fn str_token() -> Seq<char> {
    "string"@
}

/// The token naming the byte-string domain.
pub open spec fn byte_str_token() -> Seq<char> {
    "byte-string"@
}

/// What `Domain::resolve` returns for a token and an optional mask width.
pub open spec fn spec_resolve_domain(token: Seq<char>, mask_width: Option<u8>) -> Result<
    Domain,
    CompileError,
> {
    if token == str_token() {
        Ok(Domain::Str)
    } else if token == byte_str_token() {
        Ok(Domain::ByteStr)
    } else if exists|it: IntegerType| token == #[trigger] it.token() {
        let it = choose|it: IntegerType| token == #[trigger] it.token();
        let w = match mask_width {
            Some(w) => w as nat,
            None => it.spec_width(),
        };
        if w <= it.spec_width() {
            Ok(Domain::Integer { itype: it, mask_width: w as u8 })
        } else {
            Err(CompileError::UnknownDomain)
        }
    } else {
        Err(CompileError::UnknownDomain)
    }
}

impl Domain {
    /// A representable domain: the mask width never exceeds the native
    /// width.
    pub open spec fn wf(self) -> bool {
        self matches Domain::Integer { itype, mask_width } ==> mask_width as nat
            <= itype.spec_width()
    }

    /// The size of the usable space of an integer domain.
    pub open spec fn space(self) -> nat
        recommends
            self is Integer,
    {
        pow2(self->Integer_mask_width as nat)
    }

    /// The bitmask `2^mask_width - 1` applied before a reverse lookup.
    pub fn mask(&self) -> (m: u128)
        requires
            self.wf(),
            self is Integer,
        ensures
            m == mask128(self->Integer_mask_width as nat),
    {
        match self {
            Domain::Integer { mask_width, .. } => mask_of_width(*mask_width),
            _ => 0,
        }
    }

    /// The numeric range test against the native width of an integer domain.
    pub fn contains(&self, value: u128) -> (r: bool)
        requires
            self is Integer,
        ensures
            r == ((value as nat) < pow2(self->Integer_itype.spec_width())),
    {
        match self {
            Domain::Integer { itype, .. } => itype.value_valid(value),
            _ => false,
        }
    }

    /// Resolves a domain name token, with the optional mask width argument,
    /// into a domain.
    ///
    /// An unrecognized token is no domain, and neither is an integer token
    /// with a mask width beyond its native width: both fail with
    /// `UnknownDomain`.  When the mask width is omitted it defaults to the
    /// native width.
    pub fn resolve(token: &String, mask_width: Option<u8>) -> (r: Result<Domain, CompileError>)
        ensures
            r == spec_resolve_domain(token@, mask_width),
            r matches Ok(d) ==> d.wf(),
    {
        if *token == str_token_exec() {
            return Ok(Domain::Str);
        }
        if *token == byte_str_token_exec() {
            return Ok(Domain::ByteStr);
        }
        proof {
            lemma_domain_tokens_distinct();
        }
        match IntegerType::from_str(token) {
            Some(it) => {
                let w = match mask_width {
                    Some(w) => w,
                    None => it.get_width(),
                };
                if it.width_valid(w) {
                    Ok(Domain::Integer { itype: it, mask_width: w })
                } else {
                    Err(CompileError::UnknownDomain)
                }
            },
            None => Err(CompileError::UnknownDomain),
        }
    }
}

/// The string-domain token as an owned string.
fn str_token_exec() -> (s: String)
    ensures
        s@ == str_token(),
{
    "string".to_owned()
}

/// The byte-string-domain token as an owned string.
fn byte_str_token_exec() -> (s: String)
    ensures
        s@ == byte_str_token(),
{
    "byte-string".to_owned()
}

/// The seven domain tokens are pairwise distinct, so token resolution is
/// unambiguous.
pub proof fn lemma_domain_tokens_distinct()
    ensures
        forall|it1: IntegerType, it2: IntegerType|
            #[trigger] it1.token() == #[trigger] it2.token() ==> it1 == it2,
        forall|it: IntegerType| str_token() != #[trigger] it.token(),
        forall|it: IntegerType| byte_str_token() != #[trigger] it.token(),
        str_token() != byte_str_token(),
{
    broadcast use vstd::string::group_string_axioms;

    reveal_strlit("u8");
    reveal_strlit("u16");
    reveal_strlit("u32");
    reveal_strlit("u64");
    reveal_strlit("u128");
    reveal_strlit("string");
    reveal_strlit("byte-string");
    assert("u8"@.len() == 2 && "u16"@.len() == 3 && "u32"@.len() == 3 && "u64"@.len() == 3
        && "u128"@.len() == 4 && "string"@.len() == 6 && "byte-string"@.len() == 11);
    assert("u16"@[1] == '1' && "u32"@[1] == '3' && "u64"@[1] == '6');
    assert("u8"@ != "u16"@ && "u8"@ != "u32"@ && "u8"@ != "u64"@ && "u8"@ != "u128"@);
    assert("u16"@ != "u32"@ && "u16"@ != "u64"@ && "u16"@ != "u128"@);
    assert("u32"@ != "u64"@ && "u32"@ != "u128"@);
    assert("u64"@ != "u128"@);
    assert("string"@ != "u8"@ && "string"@ != "u16"@ && "string"@ != "u32"@ && "string"@
        != "u64"@ && "string"@ != "u128"@);
    assert("byte-string"@ != "u8"@ && "byte-string"@ != "u16"@ && "byte-string"@ != "u32"@
        && "byte-string"@ != "u64"@ && "byte-string"@ != "u128"@);
    assert("string"@ != "byte-string"@);
}

} // verus!
