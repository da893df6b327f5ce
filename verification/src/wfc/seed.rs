//! Seeds: the kind of layout of a map together with the seed of its random numbers, written as
//! short text.
use crate::hexgrid::layout::{GridLayout, HexagonalGridLayout, SquareGridLayout};
use bincode::Options;
use data_encoding::BASE32_NOPAD;
use rand::Rng;
use vstd::prelude::*;

verus! {

/// The kind and size of the layout that a seed generates.
#[derive(Copy, Clone, Debug, PartialEq, Eq, Structural)]
pub enum SeedType {
    Hexagonal(u16),
    Square(u16, u16),
}

/// What a map is generated from: a layout and the seed of the random numbers.
#[derive(Copy, Clone, Debug, PartialEq, Eq, Structural)]
pub struct Seed {
    pub seed_type: SeedType,
    pub rng_seed: u64,
}

/// The bytes that bincode's default options write for the tuple `(variant, radius, rng_seed)`.
pub uninterp spec fn bincode_hex_bytes(variant: u32, radius: u16, rng_seed: u64) -> Seq<u8>;

/// The bytes that bincode's default options write for the tuple
/// `(variant, width, height, rng_seed)`.
pub uninterp spec fn bincode_square_bytes(variant: u32, width: u16, height: u16, rng_seed: u64) -> Seq<u8>;

/// The tuple `(variant, radius, rng_seed)` that bincode's default options read from `bytes`, if
/// they hold exactly one.
pub uninterp spec fn bincode_hex_fields(bytes: Seq<u8>) -> Option<(u32, u16, u64)>;

/// The tuple `(variant, width, height, rng_seed)` that bincode's default options read from
/// `bytes`, if they hold exactly one.
pub uninterp spec fn bincode_square_fields(bytes: Seq<u8>) -> Option<(u32, u16, u16, u64)>;

/// The unpadded base32 text of `bytes`.
pub uninterp spec fn base32_text(bytes: Seq<u8>) -> Seq<char>;

/// The bytes of the unpadded base32 text `text`, if it is one.
pub uninterp spec fn base32_bytes(text: Seq<char>) -> Option<Seq<u8>>;

/// `bincode::DefaultOptions::serialize` on a `(u32, u16, u64)` tuple. The options have no size
/// limit and write into a `Vec`, so writing integers cannot fail. Reading the bytes back gives
/// the tuple.
#[verifier::external_body]
fn bincode_write_hex(variant: u32, radius: u16, rng_seed: u64) -> (bytes: Vec<u8>)
    ensures
        bytes@ == bincode_hex_bytes(variant, radius, rng_seed),
        bincode_hex_fields(bytes@) == Some((variant, radius, rng_seed)),
        bytes@.len() <= 32,
{
    bincode::DefaultOptions::new().serialize(&(variant, radius, rng_seed)).expect("integers always serialize")
}

/// `bincode::DefaultOptions::serialize` on a `(u32, u16, u16, u64)` tuple. Writing integers
/// cannot fail. Reading the bytes back gives the tuple; read as a `(u32, u16, u64)` tuple, the
/// first integer is the same.
#[verifier::external_body]
fn bincode_write_square(variant: u32, width: u16, height: u16, rng_seed: u64) -> (bytes: Vec<u8>)
    ensures
        bytes@ == bincode_square_bytes(variant, width, height, rng_seed),
        bincode_square_fields(bytes@) == Some((variant, width, height, rng_seed)),
        bincode_hex_fields(bytes@) matches Some(f) ==> f.0 == variant,
        bytes@.len() <= 32,
{
    bincode::DefaultOptions::new().serialize(&(variant, width, height, rng_seed)).expect(
        "integers always serialize",
    )
}

/// `bincode::DefaultOptions::deserialize` into a `(u32, u16, u64)` tuple.
#[verifier::external_body]
fn bincode_read_hex(bytes: &[u8]) -> (fields: Option<(u32, u16, u64)>)
    ensures
        fields == bincode_hex_fields(bytes@),
{
    bincode::DefaultOptions::new().deserialize::<(u32, u16, u64)>(bytes).ok()
}

/// `bincode::DefaultOptions::deserialize` into a `(u32, u16, u16, u64)` tuple.
#[verifier::external_body]
fn bincode_read_square(bytes: &[u8]) -> (fields: Option<(u32, u16, u16, u64)>)
    ensures
        fields == bincode_square_fields(bytes@),
{
    bincode::DefaultOptions::new().deserialize::<(u32, u16, u16, u64)>(bytes).ok()
}

/// `data_encoding::BASE32_NOPAD.encode`: the text of the bytes; decoding it gives the bytes
/// back. It panics only on inputs whose text would not fit in memory.
#[verifier::external_body]
fn base32_encode(bytes: &[u8]) -> (text: String)
    requires
        bytes@.len() <= usize::MAX / 512,
    ensures
        text@ == base32_text(bytes@),
        base32_bytes(text@) == Some(bytes@),
{
    BASE32_NOPAD.encode(bytes)
}

/// `data_encoding::BASE32_NOPAD.decode` on the bytes of `text`. It panics on a text longer
/// than `usize::MAX / 8` bytes; a character takes at most four bytes.
#[verifier::external_body]
fn base32_decode(text: &str) -> (bytes: Option<Vec<u8>>)
    requires
        text@.len() <= usize::MAX / 32,
    ensures
        match bytes {
            Some(b) => base32_bytes(text@) == Some(b@),
            None => base32_bytes(text@) is None,
        },
{
    BASE32_NOPAD.decode(text.as_bytes()).ok()
}

/// `rand::thread_rng().gen()`: a random `u64`.
#[verifier::external_body]
fn random_u64() -> u64 {
    rand::thread_rng().gen()
}

/// The bytes that a seed is written as: bincode's default encoding of its variant index, its
/// fields and its random seed.
pub open spec fn seed_bytes(seed: Seed) -> Seq<u8> {
    match seed.seed_type {
        SeedType::Hexagonal(radius) => bincode_hex_bytes(0, radius, seed.rng_seed),
        SeedType::Square(width, height) => bincode_square_bytes(1, width, height, seed.rng_seed),
    }
}

/// The text of a seed: the base32 text of its bytes.
pub open spec fn seed_text(seed: Seed) -> Seq<char> {
    base32_text(seed_bytes(seed))
}

/// The seed that `bytes` encode, if any: a hexagonal seed when they read as variant 0 with one
/// size, a square seed when they read as variant 1 with two.
pub open spec fn seed_of_bytes(bytes: Seq<u8>) -> Option<Seed> {
    match bincode_hex_fields(bytes) {
        Some(f) if f.0 == 0 => Some(Seed { seed_type: SeedType::Hexagonal(f.1), rng_seed: f.2 }),
        _ => match bincode_square_fields(bytes) {
            Some(f) if f.0 == 1 => Some(
                Seed { seed_type: SeedType::Square(f.1, f.2), rng_seed: f.3 },
            ),
            _ => None,
        },
    }
}

/// The seed that `text` stands for, if any.
pub open spec fn seed_of_text(text: Seq<char>) -> Option<Seed> {
    match base32_bytes(text) {
        Some(bytes) => seed_of_bytes(bytes),
        None => None,
    }
}

/// The message of a text that is no seed.
pub open spec fn invalid_seed_message() -> Seq<char> {
    "Not a valid seed"@
}

/// The message of a seed made for another layout.
pub open spec fn incompatible_seed_message() -> Seq<char> {
    "Incompatible seed"@
}

impl Seed {
    /// A seed for the given layout with a random seed for the random numbers.
    pub fn new(seed_type: SeedType) -> (seed: Self)
        ensures
            seed.seed_type == seed_type,
    {
        Seed { seed_type, rng_seed: random_u64() }
    }

    /// The bytes that the seed is written as.
    pub fn to_bytes(&self) -> (bytes: Vec<u8>)
        ensures
            bytes@ == seed_bytes(*self),
            seed_of_bytes(bytes@) == Some(*self),
            bytes@.len() <= 32,
    {
        match self.seed_type {
            SeedType::Hexagonal(radius) => bincode_write_hex(0, radius, self.rng_seed),
            SeedType::Square(width, height) => bincode_write_square(1, width, height, self.rng_seed),
        }
    }

    /// The seed that `bytes` encode, if any.
    pub fn from_bytes(bytes: &[u8]) -> (seed: Option<Seed>)
        ensures
            seed == seed_of_bytes(bytes@),
    {
        match bincode_read_hex(bytes) {
            Some(f) if f.0 == 0 => {
                return Some(Seed { seed_type: SeedType::Hexagonal(f.1), rng_seed: f.2 });
            },
            _ => {},
        }
        match bincode_read_square(bytes) {
            Some(f) if f.0 == 1 => Some(Seed { seed_type: SeedType::Square(f.1, f.2), rng_seed: f.3 }),
            _ => None,
        }
    }

    /// The text of the seed; reading it back gives the seed.
    pub fn to_string(&self) -> (text: String)
        ensures
            text@ == seed_text(*self),
            seed_of_text(text@) == Some(*self),
    {
        let bytes = self.to_bytes();
        base32_encode(bytes.as_slice())
    }

    /// The seed that `string` stands for, or an error if it stands for none or is too long to
    /// decode.
    pub fn parse_text(string: &str) -> (res: Result<Seed, &'static str>)
        ensures
            match res {
                Ok(seed) => string@.len() <= usize::MAX / 32 && seed_of_text(string@) == Some(seed),
                Err(e) => (string@.len() > usize::MAX / 32 || seed_of_text(string@) is None) && e@
                    == invalid_seed_message(),
            },
    {
        proof {
            reveal_strlit("Not a valid seed");
        }
        if string.unicode_len() > usize::MAX / 32 {
            return Err("Not a valid seed");
        }
        match base32_decode(string) {
            Some(bytes) => match Seed::from_bytes(bytes.as_slice()) {
                Some(seed) => Ok(seed),
                None => Err("Not a valid seed"),
            },
            None => Err("Not a valid seed"),
        }
    }
}

impl std::str::FromStr for Seed {
    type Err = &'static str;

    fn from_str(string: &str) -> (res: Result<Self, Self::Err>)
        ensures
            match res {
                Ok(seed) => string@.len() <= usize::MAX / 32 && seed_of_text(string@) == Some(seed),
                Err(e) => (string@.len() > usize::MAX / 32 || seed_of_text(string@) is None) && e@
                    == invalid_seed_message(),
            },
    {
        Seed::parse_text(string)
    }
}

/// A layout that a seed can describe.
pub trait SeedLayout: GridLayout {
    /// The layout that `seed_type` describes, if it describes one of this kind.
    spec fn layout_of(seed_type: SeedType) -> Option<Self>;

    /// The kind and size of this layout.
    spec fn seed_type_of(self) -> SeedType;

    /// The layout of a seed type, or an error if the seed type is for another kind of layout.
    fn from_seed_type(seed_type: SeedType) -> (res: Result<Self, &'static str>)
        ensures
            match res {
                Ok(layout) => Self::layout_of(seed_type) == Some(layout),
                Err(e) => Self::layout_of(seed_type) is None && e@ == incompatible_seed_message(),
            };

    /// The seed type that describes this layout.
    fn to_seed_type(self) -> (seed_type: SeedType)
        ensures
            seed_type == self.seed_type_of();
}

impl SeedLayout for HexagonalGridLayout {
    open spec fn layout_of(seed_type: SeedType) -> Option<Self> {
        match seed_type {
            SeedType::Hexagonal(radius) => Some(HexagonalGridLayout { radius: radius as i32 }),
            _ => None,
        }
    }

    open spec fn seed_type_of(self) -> SeedType {
        SeedType::Hexagonal(self.radius as u16)
    }

    fn from_seed_type(seed_type: SeedType) -> (res: Result<Self, &'static str>) {
        proof {
            reveal_strlit("Incompatible seed");
        }
        match seed_type {
            SeedType::Hexagonal(radius) => Ok(HexagonalGridLayout { radius: radius as i32 }),
            _ => Err("Incompatible seed"),
        }
    }

    fn to_seed_type(self) -> (seed_type: SeedType) {
        SeedType::Hexagonal(self.radius as u16)
    }
}

impl SeedLayout for SquareGridLayout {
    open spec fn layout_of(seed_type: SeedType) -> Option<Self> {
        match seed_type {
            SeedType::Square(width, height) => Some(
                SquareGridLayout { width: width as i32, height: height as i32 },
            ),
            _ => None,
        }
    }

    open spec fn seed_type_of(self) -> SeedType {
        SeedType::Square(self.width as u16, self.height as u16)
    }

    fn from_seed_type(seed_type: SeedType) -> (res: Result<Self, &'static str>) {
        proof {
            reveal_strlit("Incompatible seed");
        }
        match seed_type {
            SeedType::Square(width, height) => Ok(
                SquareGridLayout { width: width as i32, height: height as i32 },
            ),
            _ => Err("Incompatible seed"),
        }
    }

    fn to_seed_type(self) -> (seed_type: SeedType) {
        SeedType::Square(self.width as u16, self.height as u16)
    }
}

impl TryFrom<SeedType> for HexagonalGridLayout {
    type Error = &'static str;

    fn try_from(seed_type: SeedType) -> (res: Result<Self, Self::Error>) {
        if let SeedType::Hexagonal(radius) = seed_type {
            Ok(HexagonalGridLayout { radius: radius as i32 })
        } else {
            Err("Incompatible seed")
        }
    }
}

impl vstd::std_specs::convert::TryFromSpecImpl<SeedType> for HexagonalGridLayout {
    open spec fn obeys_try_from_spec() -> bool {
        true
    }

    open spec fn try_from_spec(seed_type: SeedType) -> Result<Self, &'static str> {
        if let SeedType::Hexagonal(radius) = seed_type {
            Ok(HexagonalGridLayout { radius: radius as i32 })
        } else {
            Err("Incompatible seed")
        }
    }
}

impl TryFrom<SeedType> for SquareGridLayout {
    type Error = &'static str;

    fn try_from(seed_type: SeedType) -> (res: Result<Self, Self::Error>) {
        if let SeedType::Square(width, height) = seed_type {
            Ok(SquareGridLayout { width: width as i32, height: height as i32 })
        } else {
            Err("Incompatible seed")
        }
    }
}

impl vstd::std_specs::convert::TryFromSpecImpl<SeedType> for SquareGridLayout {
    open spec fn obeys_try_from_spec() -> bool {
        true
    }

    open spec fn try_from_spec(seed_type: SeedType) -> Result<Self, &'static str> {
        if let SeedType::Square(width, height) = seed_type {
            Ok(SquareGridLayout { width: width as i32, height: height as i32 })
        } else {
            Err("Incompatible seed")
        }
    }
}

impl From<HexagonalGridLayout> for SeedType {
    fn from(layout: HexagonalGridLayout) -> (seed_type: Self) {
        SeedType::Hexagonal(layout.radius as u16)
    }
}

impl vstd::std_specs::convert::FromSpecImpl<HexagonalGridLayout> for SeedType {
    open spec fn obeys_from_spec() -> bool {
        true
    }

    open spec fn from_spec(layout: HexagonalGridLayout) -> Self {
        SeedType::Hexagonal(layout.radius as u16)
    }
}

impl From<SquareGridLayout> for SeedType {
    fn from(layout: SquareGridLayout) -> (seed_type: Self) {
        SeedType::Square(layout.width as u16, layout.height as u16)
    }
}

impl vstd::std_specs::convert::FromSpecImpl<SquareGridLayout> for SeedType {
    open spec fn obeys_from_spec() -> bool {
        true
    }

    open spec fn from_spec(layout: SquareGridLayout) -> Self {
        SeedType::Square(layout.width as u16, layout.height as u16)
    }
}

} // verus!
