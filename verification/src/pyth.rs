//! The layout of a Pyth price account, and reading one from its bytes.
//! All numbers in an account are little-endian.

use vstd::prelude::*;
use vstd::string::StringExecFns;

verus! {

/// The bytes every account starts with, read as a number.
pub const MAGIC: u32 = 0xa1b2c3d4;

/// The account type of a price account.
pub const PRICE_ACCOUNT_TYPE: u32 = 3;

/// Bytes before the aggregate quote of a price account.
pub const HEADER_BYTES: usize = 208;

/// Bytes of one quote.
pub const QUOTE_BYTES: usize = 32;

/// Bytes of a price account up to the end of its aggregate quote.
pub const ACCOUNT_BYTES: usize = 240;

/// What kind of account a record is.
#[derive(Debug, Clone, Copy, PartialEq, Eq)]
pub enum AccountType {
    Unknown,
    Mapping,
    Product,
    Price,
}

/// Whether a price can be traded on.
#[derive(Debug, Clone, Copy, PartialEq, Eq, Structural)]
pub enum PriceStatus {
    Unknown,
    Trading,
    Halted,
    Auction,
}

/// What kind of price an account quotes.
#[derive(Debug, Clone, Copy, PartialEq, Eq)]
pub enum PriceType {
    Unknown,
    Price,
}

/// One quote: a price with its confidence interval.
#[derive(Debug, Clone, Copy, PartialEq, Eq, Structural)]
pub struct PriceInfo {
    pub price: i64,
    pub conf: u64,
    pub status: PriceStatus,
    pub corp_act: u32,
    pub pub_slot: u64,
}

/// An exponentially weighted moving average.
#[derive(Debug, Clone, Copy, PartialEq, Eq, Structural)]
pub struct Ema {
    pub val: i64,
    pub numer: i64,
    pub denom: i64,
}

/// A price account, field by field in the order of its bytes.
#[derive(Debug, Clone, Copy, PartialEq, Eq)]
pub struct PriceAccount {
    pub magic: u32,
    pub ver: u32,
    pub atype: u32,
    pub size: u32,
    pub ptype: u32,
    pub exponent: i32,
    pub num: u32,
    pub unused: u32,
    pub curr_slot: u64,
    pub valid_slot: u64,
    pub twap: Ema,
    pub twac: Ema,
    pub drv1: u64,
    pub drv2: PriceInfo,
    pub prod: [u8; 32],
    pub next: [u8; 32],
    pub agg_pub_slot: u64,
    pub agg: PriceInfo,
}

/// Why bytes are not read as a price account.
#[derive(Debug, Clone, Copy, PartialEq, Eq, Structural)]
pub enum ParseError {
    /// There are fewer bytes than the header of an account has.
    TooShort { len: usize },
    /// The bytes do not start with `MAGIC`.
    BadMagic { magic: u32 },
    /// The account is of another type than a price account.
    NotPriceAccount { atype: u32 },
    /// There are fewer bytes than a quote has.
    ShortQuote,
}

/// The number whose four little-endian bytes stand at `at` in `bytes`.
pub open spec fn le_u32(bytes: Seq<u8>, at: int) -> u32 {
    (bytes[at] + 0x100 * bytes[at + 1] + 0x1_0000 * bytes[at + 2] + 0x100_0000 * bytes[at
        + 3]) as u32
}

/// The number whose eight little-endian bytes stand at `at` in `bytes`.
pub open spec fn le_u64(bytes: Seq<u8>, at: int) -> u64 {
    (bytes[at] + 0x100 * bytes[at + 1] + 0x1_0000 * bytes[at + 2] + 0x100_0000 * bytes[at + 3]
        + 0x1_0000_0000 * bytes[at + 4] + 0x100_0000_0000 * bytes[at + 5] + 0x1_0000_0000_0000
        * bytes[at + 6] + 0x100_0000_0000_0000 * bytes[at + 7]) as u64
}

/// The signed number whose four little-endian bytes stand at `at`, in
/// two's complement.
pub open spec fn le_i32(bytes: Seq<u8>, at: int) -> i32 {
    le_u32(bytes, at) as i32
}

/// The signed number whose eight little-endian bytes stand at `at`, in
/// two's complement.
pub open spec fn le_i64(bytes: Seq<u8>, at: int) -> i64 {
    le_u64(bytes, at) as i64
}

/// The status that the number `raw` stands for; a number that stands for
/// none counts as unknown.
pub open spec fn status_of(raw: u32) -> PriceStatus {
    if raw == 1 {
        PriceStatus::Trading
    } else if raw == 2 {
        PriceStatus::Halted
    } else if raw == 3 {
        PriceStatus::Auction
    } else {
        PriceStatus::Unknown
    }
}

/// The quote whose 32 bytes stand at `at` in `bytes`.
pub open spec fn quote_at(bytes: Seq<u8>, at: int) -> PriceInfo {
    PriceInfo {
        price: le_i64(bytes, at),
        conf: le_u64(bytes, at + 8),
        status: status_of(le_u32(bytes, at + 16)),
        corp_act: le_u32(bytes, at + 20),
        pub_slot: le_u64(bytes, at + 24),
    }
}

/// The moving average whose 24 bytes stand at `at` in `bytes`.
pub open spec fn ema_at(bytes: Seq<u8>, at: int) -> Ema {
    Ema { val: le_i64(bytes, at), numer: le_i64(bytes, at + 8), denom: le_i64(bytes, at + 16) }
}

/// Whether `account` is what the first `ACCOUNT_BYTES` bytes of `data` say.
pub open spec fn is_account_of(account: PriceAccount, data: Seq<u8>) -> bool {
    &&& account.magic == le_u32(data, 0)
    &&& account.ver == le_u32(data, 4)
    &&& account.atype == le_u32(data, 8)
    &&& account.size == le_u32(data, 12)
    &&& account.ptype == le_u32(data, 16)
    &&& account.exponent == le_i32(data, 20)
    &&& account.num == le_u32(data, 24)
    &&& account.unused == le_u32(data, 28)
    &&& account.curr_slot == le_u64(data, 32)
    &&& account.valid_slot == le_u64(data, 40)
    &&& account.twap == ema_at(data, 48)
    &&& account.twac == ema_at(data, 72)
    &&& account.drv1 == le_u64(data, 96)
    &&& account.drv2 == quote_at(data, 104)
    &&& account.prod@ == data.subrange(136, 168)
    &&& account.next@ == data.subrange(168, 200)
    &&& account.agg_pub_slot == le_u64(data, 200)
    &&& account.agg == quote_at(data, 208)
}

/// What reading `data` as a price account comes to, where it fails.
pub open spec fn parse_failure(data: Seq<u8>) -> Option<ParseError> {
    if data.len() < HEADER_BYTES {
        Some(ParseError::TooShort { len: data.len() as usize })
    } else if le_u32(data, 0) != MAGIC {
        Some(ParseError::BadMagic { magic: le_u32(data, 0) })
    } else if le_u32(data, 8) != PRICE_ACCOUNT_TYPE {
        Some(ParseError::NotPriceAccount { atype: le_u32(data, 8) })
    } else {
        None
    }
}

/// Reads four little-endian bytes at `at` as a number.
pub fn read_u32(data: &[u8], at: usize) -> (value: u32)
    requires
        at + 4 <= data.len(),
    ensures
        value == le_u32(data@, at as int),
{
    let b0: u32 = data[at] as u32;
    let b1: u32 = data[at + 1] as u32;
    let b2: u32 = data[at + 2] as u32;
    let b3: u32 = data[at + 3] as u32;
    b0 + 0x100 * b1 + 0x1_0000 * b2 + 0x100_0000 * b3
}

/// Reads eight little-endian bytes at `at` as a number.
pub fn read_u64(data: &[u8], at: usize) -> (value: u64)
    requires
        at + 8 <= data.len(),
    ensures
        value == le_u64(data@, at as int),
{
    let b0: u64 = data[at] as u64;
    let b1: u64 = data[at + 1] as u64;
    let b2: u64 = data[at + 2] as u64;
    let b3: u64 = data[at + 3] as u64;
    let b4: u64 = data[at + 4] as u64;
    let b5: u64 = data[at + 5] as u64;
    let b6: u64 = data[at + 6] as u64;
    let b7: u64 = data[at + 7] as u64;
    b0 + 0x100 * b1 + 0x1_0000 * b2 + 0x100_0000 * b3 + 0x1_0000_0000 * b4 + 0x100_0000_0000 * b5
        + 0x1_0000_0000_0000 * b6 + 0x100_0000_0000_0000 * b7
}

/// Reads four little-endian bytes at `at` as a signed number.
pub fn read_i32(data: &[u8], at: usize) -> (value: i32)
    requires
        at + 4 <= data.len(),
    ensures
        value == le_i32(data@, at as int),
{
    read_u32(data, at) as i32
}

/// Reads eight little-endian bytes at `at` as a signed number.
pub fn read_i64(data: &[u8], at: usize) -> (value: i64)
    requires
        at + 8 <= data.len(),
    ensures
        value == le_i64(data@, at as int),
{
    read_u64(data, at) as i64
}

fn read_ema(data: &[u8], at: usize) -> (ema: Ema)
    requires
        at + 24 <= data.len(),
    ensures
        ema == ema_at(data@, at as int),
{
    Ema { val: read_i64(data, at), numer: read_i64(data, at + 8), denom: read_i64(data, at + 16) }
}

fn read_block(data: &[u8], at: usize) -> (block: [u8; 32])
    requires
        at + 32 <= data.len(),
    ensures
        block@ == data@.subrange(at as int, at + 32),
{
    let mut block: [u8; 32] = [0u8; 32];
    let mut i: usize = 0;
    while i < 32
        invariant
            i <= 32,
            at + 32 <= data.len(),
            forall|k: int| 0 <= k < i ==> block@[k] == data@[at + k],
        decreases 32 - i,
    {
        block[i] = data[at + i];
        i = i + 1;
    }
    assert(block@ =~= data@.subrange(at as int, at + 32));
    block
}

/// The digits of the numerals, by their worth.
pub open spec fn digits() -> Seq<char> {
    "0123456789abcdef"@
}

/// The decimal numeral of `n`, without leading zeros.
pub open spec fn decimal(n: nat) -> Seq<char>
    decreases n,
{
    if n < 10 {
        seq![digits()[n as int]]
    } else {
        decimal(n / 10).push(digits()[(n % 10) as int])
    }
}

/// The hexadecimal numeral of `n` in lower case, without leading zeros.
pub open spec fn hexadecimal(n: nat) -> Seq<char>
    decreases n,
{
    if n < 16 {
        seq![digits()[n as int]]
    } else {
        hexadecimal(n / 16).push(digits()[(n % 16) as int])
    }
}

/// What an error says in words.
pub open spec fn message_text(error: ParseError) -> Seq<char> {
    match error {
        ParseError::TooShort { len } => "Invalid Pyth account data length: "@ + decimal(len as nat)
            + " (expected at least "@ + decimal(HEADER_BYTES as nat) + ")"@,
        ParseError::BadMagic { magic } => "Invalid magic number: 0x"@ + hexadecimal(magic as nat)
            + " (expected 0x"@ + hexadecimal(MAGIC as nat) + ")"@,
        ParseError::NotPriceAccount { atype } => "Not a price account (type: "@ + decimal(
            atype as nat,
        ) + ")"@,
        ParseError::ShortQuote => "Insufficient data for PriceInfo"@,
    }
}

/// `format!` of std with `{}` on one unsigned integer: its decimal numeral,
/// as `Display` for the integer types is documented to give it.
#[verifier::external_body]
fn decimal_text(n: u64) -> (text: String)
    ensures
        text@ == decimal(n as nat),
{
    format!("{}", n)
}

/// `format!` of std with `{:x}` on one unsigned integer: its hexadecimal
/// numeral in lower case and without a prefix, as `LowerHex` for the
/// integer types is documented to give it.
#[verifier::external_body]
fn hexadecimal_text(n: u32) -> (text: String)
    ensures
        text@ == hexadecimal(n as nat),
{
    format!("{:x}", n)
}

impl ParseError {
    /// The error in words.
    pub fn message(&self) -> (text: String)
        ensures
            text@ == message_text(*self),
    {
        match self {
            ParseError::TooShort { len } => {
                let mut text: String = "Invalid Pyth account data length: ".to_string();
                text.append(decimal_text(*len as u64).as_str());
                text.append(" (expected at least ");
                text.append(decimal_text(HEADER_BYTES as u64).as_str());
                text.append(")");
                text
            },
            ParseError::BadMagic { magic } => {
                let mut text: String = "Invalid magic number: 0x".to_string();
                text.append(hexadecimal_text(*magic).as_str());
                text.append(" (expected 0x");
                text.append(hexadecimal_text(MAGIC).as_str());
                text.append(")");
                text
            },
            ParseError::NotPriceAccount { atype } => {
                let mut text: String = "Not a price account (type: ".to_string();
                text.append(decimal_text(*atype as u64).as_str());
                text.append(")");
                text
            },
            ParseError::ShortQuote => "Insufficient data for PriceInfo".to_string(),
        }
    }
}

impl PriceAccount {
    /// Reads a price account from `data`. Bytes shorter than the header,
    /// bytes that do not start with `MAGIC`, and an account of another type
    /// are refused, in this order. The bytes must hold the whole aggregate
    /// quote once they hold the header.
    pub fn parse(data: &[u8]) -> (parsed: Result<Self, ParseError>)
        requires
            data@.len() < HEADER_BYTES || data@.len() >= ACCOUNT_BYTES,
        ensures
            match parsed {
                Ok(account) => parse_failure(data@) is None && is_account_of(account, data@),
                Err(failure) => parse_failure(data@) == Some(failure),
            },
    {
        if data.len() < HEADER_BYTES {
            return Err(ParseError::TooShort { len: data.len() });
        }
        let magic: u32 = read_u32(data, 0);
        if magic != MAGIC {
            return Err(ParseError::BadMagic { magic });
        }
        let ver: u32 = read_u32(data, 4);
        let atype: u32 = read_u32(data, 8);
        if atype != PRICE_ACCOUNT_TYPE {
            return Err(ParseError::NotPriceAccount { atype });
        }
        let drv2 = match Self::parse_price_info(vstd::slice::slice_subrange(data, 104, 136)) {
            Ok(quote) => quote,
            Err(failure) => {
                return Err(failure);
            },
        };
        let agg = match Self::parse_price_info(vstd::slice::slice_subrange(data, 208, 240)) {
            Ok(quote) => quote,
            Err(failure) => {
                return Err(failure);
            },
        };
        proof {
            lemma_quote_of_subrange(data@, 104);
            lemma_quote_of_subrange(data@, 208);
        }
        Ok(
            PriceAccount {
                magic,
                ver,
                atype,
                size: read_u32(data, 12),
                ptype: read_u32(data, 16),
                exponent: read_i32(data, 20),
                num: read_u32(data, 24),
                unused: read_u32(data, 28),
                curr_slot: read_u64(data, 32),
                valid_slot: read_u64(data, 40),
                twap: read_ema(data, 48),
                twac: read_ema(data, 72),
                drv1: read_u64(data, 96),
                drv2,
                prod: read_block(data, 136),
                next: read_block(data, 168),
                agg_pub_slot: read_u64(data, 200),
                agg,
            },
        )
    }

    /// Reads one quote from the first `QUOTE_BYTES` bytes of `data`; fewer
    /// bytes are refused.
    pub fn parse_price_info(data: &[u8]) -> (parsed: Result<PriceInfo, ParseError>)
        ensures
            parsed == (if data@.len() < QUOTE_BYTES {
                Err::<PriceInfo, ParseError>(ParseError::ShortQuote)
            } else {
                Ok(quote_at(data@, 0))
            }),
    {
        if data.len() < QUOTE_BYTES {
            return Err(ParseError::ShortQuote);
        }
        let status_raw: u32 = read_u32(data, 16);
        let status = if status_raw == 1 {
            PriceStatus::Trading
        } else if status_raw == 2 {
            PriceStatus::Halted
        } else if status_raw == 3 {
            PriceStatus::Auction
        } else {
            PriceStatus::Unknown
        };
        Ok(
            PriceInfo {
                price: read_i64(data, 0),
                conf: read_u64(data, 8),
                status,
                corp_act: read_u32(data, 20),
                pub_slot: read_u64(data, 24),
            },
        )
    }

    /// Whether the aggregate quote carries a price: one that is not zero.
    pub fn is_valid(&self) -> (valid: bool)
        ensures
            valid == (self.agg.price != 0),
    {
        self.agg.price != 0
    }
}

/// A quote read from a window of the bytes is the quote at the place of
/// the window.
proof fn lemma_quote_of_subrange(data: Seq<u8>, at: int)
    requires
        0 <= at,
        at + 32 <= data.len(),
    ensures
        quote_at(data.subrange(at, at + 32), 0) == quote_at(data, at),
{
    let window = data.subrange(at, at + 32);
    assert forall|k: int| 0 <= k < 32 implies window[k] == data[at + k] by {}
}

} // verus!
