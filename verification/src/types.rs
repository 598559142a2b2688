//! Value types that appear on the wire: the symbol, the venue, the scale,
//! and the integer widths of prices and sizes.
use vstd::prelude::*;
use vstd::string::StringSliceAdditionalSpecFns;

verus! {

/// Width of the header's symbol field in bytes.
pub const SYMBOL_LEN: usize = 24;

/// Width of a KRX ISIN: the first twelve bytes of a KRX symbol.
pub const ISIN_LEN: usize = 12;

/// The venue's own name for the instrument, left-aligned and `NUL`-padded.
pub type Symbol = [u8; 24];

/// A twelve-byte KRX ISIN, as the venue sends it.
pub type Isin = [u8; 12];

/// Price in `price_scale` units. Signed: yields and spreads go negative.
pub type BookPrice = i64;

/// Quantity in `qty_scale` units.
pub type BookQuantity = u64;

/// Bond yield in fixed point, carried in a level's `ext` word.
pub type BookYield = i32;

/// Count of resting orders at a level.
pub type OrderCount = u32;

/// Nanoseconds since the Unix epoch. Unsigned and not monotonic: every
/// difference goes through a saturating subtraction.
pub type UnixNano = u64;

/// `bytes` holds no `NUL` byte.
pub open spec fn no_nul(bytes: Seq<u8>) -> bool {
    forall|i: int| 0 <= i < bytes.len() ==> bytes[i] != 0u8
}

/// The symbol a venue name becomes: the name followed by `NUL` bytes up to
/// [`SYMBOL_LEN`].
pub open spec fn padded_symbol(bytes: Seq<u8>) -> Seq<u8> {
    bytes + Seq::new((24 - bytes.len()) as nat, |i: int| 0u8)
}

/// A venue name the symbol field can carry unambiguously.
pub open spec fn symbol_accepts(bytes: Seq<u8>) -> bool {
    &&& 0 < bytes.len() <= 24
    &&& no_nul(bytes)
}

/// Builds a [`Symbol`] from a venue symbol, `NUL`-padding the tail.
///
/// `None` if the input is empty, longer than [`SYMBOL_LEN`], or contains a
/// `NUL` (which would make the padding ambiguous).
pub fn symbol_from_bytes(bytes: &[u8]) -> (res: Option<Symbol>)
    ensures
        res is Some <==> symbol_accepts(bytes@),
        res matches Some(s) ==> s@ == padded_symbol(bytes@),
{
    if bytes.len() == 0 || bytes.len() > SYMBOL_LEN {
        return None;
    }
    let mut out = [0u8; 24];
    let mut i: usize = 0;
    while i < bytes.len()
        invariant
            0 <= i <= bytes.len() <= 24,
            out@.len() == 24,
            forall|j: int| 0 <= j < i ==> out@[j] == bytes@[j],
            forall|j: int| i <= j < 24 ==> out@[j] == 0u8,
            no_nul(bytes@.subrange(0, i as int)),
        decreases bytes.len() - i,
    {
        if bytes[i] == 0 {
            assert(!no_nul(bytes@));
            return None;
        }
        out[i] = bytes[i];
        i += 1;
        assert(bytes@.subrange(0, i as int) =~= bytes@.subrange(0, i - 1).push(bytes@[i - 1]));
    }
    assert(bytes@.subrange(0, bytes.len() as int) =~= bytes@);
    assert(out@ =~= padded_symbol(bytes@));
    Some(out)
}

/// Length of a symbol without its trailing `NUL` padding: one past the last
/// non-`NUL` byte, or zero for an all-`NUL` symbol.
pub open spec fn symbol_len(s: Seq<u8>) -> nat
    decreases s.len(),
{
    if s.len() == 0 {
        0
    } else if s.last() != 0u8 {
        s.len()
    } else {
        symbol_len(s.drop_last())
    }
}

proof fn lemma_symbol_len_bound(s: Seq<u8>)
    ensures
        symbol_len(s) <= s.len(),
        forall|j: int| symbol_len(s) <= j < s.len() ==> s[j] == 0u8,
        symbol_len(s) > 0 ==> s[symbol_len(s) - 1] != 0u8,
    decreases s.len(),
{
    if s.len() > 0 && s.last() == 0u8 {
        let t = s.drop_last();
        lemma_symbol_len_bound(t);
        assert forall|j: int| symbol_len(s) <= j < s.len() implies s[j] == 0u8 by {
            if j < t.len() {
                assert(t[j] == s[j]);
            }
        }
        if symbol_len(s) > 0 {
            assert(t[symbol_len(s) - 1] == s[symbol_len(s) - 1]);
        }
    }
}

/// The symbol without its `NUL` padding.
pub fn symbol_bytes(symbol: &Symbol) -> (res: &[u8])
    ensures
        res@ == symbol@.subrange(0, symbol_len(symbol@) as int),
{
    let mut len: usize = 24;
    assert(symbol@.subrange(0, 24) =~= symbol@);
    while len > 0 && symbol[len - 1] == 0
        invariant
            len <= 24,
            symbol@.len() == 24,
            symbol_len(symbol@) == symbol_len(symbol@.subrange(0, len as int)),
        decreases len,
    {
        assert(symbol@.subrange(0, len - 1) =~= symbol@.subrange(0, len as int).drop_last());
        len -= 1;
    }
    proof {
        let t = symbol@.subrange(0, len as int);
        if len > 0 {
            assert(t.last() != 0u8);
        }
        assert(symbol_len(t) == len);
    }
    let s: &[u8] = symbol.as_slice();
    &s[0..len]
}

/// Trading venue, one byte on the wire. The bytes are part of the ABI.
#[derive(Debug, Clone, Copy, PartialEq, Eq, Hash, Structural)]
pub enum Venue {
    /// Korea Exchange.
    Krx,
    /// Nextrade (NXT).
    Nxt,
    /// Seoul Money Brokerage Services: USDKRW spot.
    Smbs,
    /// Binance spot.
    BinanceSpot,
    /// Binance USD-M futures.
    BinanceFutures,
    /// Upbit.
    Upbit,
    /// Bithumb.
    Bithumb,
    /// OKX, every market on one byte.
    Okx,
    /// Bybit spot.
    BybitSpot,
    /// Bybit linear perpetuals and futures.
    BybitLinear,
    /// Bitget spot.
    BitgetSpot,
    /// Bitget USDT/USDC-margined futures.
    BitgetLinear,
    /// Gate.io spot.
    GateSpot,
    /// KuCoin spot.
    KucoinSpot,
    /// KuCoin futures.
    KucoinFutures,
}

/// The wire byte of each venue.
pub open spec fn venue_byte(v: Venue) -> u8 {
    match v {
        Venue::Krx => 0,
        Venue::Nxt => 1,
        Venue::Smbs => 2,
        Venue::BinanceSpot => 3,
        Venue::BinanceFutures => 4,
        Venue::Upbit => 5,
        Venue::Bithumb => 6,
        Venue::Okx => 7,
        Venue::BybitSpot => 8,
        Venue::BybitLinear => 9,
        Venue::BitgetSpot => 10,
        Venue::BitgetLinear => 11,
        Venue::GateSpot => 12,
        Venue::KucoinSpot => 13,
        Venue::KucoinFutures => 14,
    }
}

/// The venue a wire byte names, if any: the inverse of [`venue_byte`].
pub open spec fn venue_of_byte(b: u8) -> Option<Venue> {
    if b == 0 {
        Some(Venue::Krx)
    } else if b == 1 {
        Some(Venue::Nxt)
    } else if b == 2 {
        Some(Venue::Smbs)
    } else if b == 3 {
        Some(Venue::BinanceSpot)
    } else if b == 4 {
        Some(Venue::BinanceFutures)
    } else if b == 5 {
        Some(Venue::Upbit)
    } else if b == 6 {
        Some(Venue::Bithumb)
    } else if b == 7 {
        Some(Venue::Okx)
    } else if b == 8 {
        Some(Venue::BybitSpot)
    } else if b == 9 {
        Some(Venue::BybitLinear)
    } else if b == 10 {
        Some(Venue::BitgetSpot)
    } else if b == 11 {
        Some(Venue::BitgetLinear)
    } else if b == 12 {
        Some(Venue::GateSpot)
    } else if b == 13 {
        Some(Venue::KucoinSpot)
    } else if b == 14 {
        Some(Venue::KucoinFutures)
    } else {
        None
    }
}

/// The short ASCII tag of each venue.
pub open spec fn venue_tag(v: Venue) -> &'static str {
    match v {
        Venue::Krx => "KRX",
        Venue::Nxt => "NXT",
        Venue::Smbs => "SMBS",
        Venue::BinanceSpot => "BINANCE_SPOT",
        Venue::BinanceFutures => "BINANCE_FUTURES",
        Venue::Upbit => "UPBIT",
        Venue::Bithumb => "BITHUMB",
        Venue::Okx => "OKX",
        Venue::BybitSpot => "BYBIT_SPOT",
        Venue::BybitLinear => "BYBIT_LINEAR",
        Venue::BitgetSpot => "BITGET_SPOT",
        Venue::BitgetLinear => "BITGET_LINEAR",
        Venue::GateSpot => "GATE_SPOT",
        Venue::KucoinSpot => "KUCOIN_SPOT",
        Venue::KucoinFutures => "KUCOIN_FUTURES",
    }
}

/// The venue whose tag is `t`, if any (tags are case-sensitive).
pub open spec fn venue_of_tag(t: Seq<char>) -> Option<Venue> {
    if t == "KRX"@ {
        Some(Venue::Krx)
    } else if t == "NXT"@ {
        Some(Venue::Nxt)
    } else if t == "SMBS"@ {
        Some(Venue::Smbs)
    } else if t == "BINANCE_SPOT"@ {
        Some(Venue::BinanceSpot)
    } else if t == "BINANCE_FUTURES"@ {
        Some(Venue::BinanceFutures)
    } else if t == "UPBIT"@ {
        Some(Venue::Upbit)
    } else if t == "BITHUMB"@ {
        Some(Venue::Bithumb)
    } else if t == "OKX"@ {
        Some(Venue::Okx)
    } else if t == "BYBIT_SPOT"@ {
        Some(Venue::BybitSpot)
    } else if t == "BYBIT_LINEAR"@ {
        Some(Venue::BybitLinear)
    } else if t == "BITGET_SPOT"@ {
        Some(Venue::BitgetSpot)
    } else if t == "BITGET_LINEAR"@ {
        Some(Venue::BitgetLinear)
    } else if t == "GATE_SPOT"@ {
        Some(Venue::GateSpot)
    } else if t == "KUCOIN_SPOT"@ {
        Some(Venue::KucoinSpot)
    } else if t == "KUCOIN_FUTURES"@ {
        Some(Venue::KucoinFutures)
    } else {
        None
    }
}

/// `true` when the two strings are the same characters.
pub fn str_eq(a: &str, b: &str) -> (res: bool)
    ensures
        res == (a@ == b@),
{
    let x = a.as_bytes();
    let y = b.as_bytes();
    proof {
        vstd::utf8::encode_utf8_decode_utf8(a@);
        vstd::utf8::encode_utf8_decode_utf8(b@);
    }
    if x.len() != y.len() {
        assert(x@ != y@);
        return false;
    }
    let mut i: usize = 0;
    while i < x.len()
        invariant
            x@.len() == y@.len(),
            x@ == a.spec_bytes(),
            y@ == b.spec_bytes(),
            0 <= i <= x@.len(),
            forall|j: int| 0 <= j < i ==> x@[j] == y@[j],
        decreases x@.len() - i,
    {
        if x[i] != y[i] {
            assert(x@[i as int] != y@[i as int]);
            assert(x@ != y@);
            return false;
        }
        i += 1;
    }
    assert(x@ =~= y@);
    true
}

impl Venue {
    /// Short ASCII tag.
    pub fn as_str(self) -> (res: &'static str)
        ensures
            res == venue_tag(self),
    {
        match self {
            Venue::Krx => "KRX",
            Venue::Nxt => "NXT",
            Venue::Smbs => "SMBS",
            Venue::BinanceSpot => "BINANCE_SPOT",
            Venue::BinanceFutures => "BINANCE_FUTURES",
            Venue::Upbit => "UPBIT",
            Venue::Bithumb => "BITHUMB",
            Venue::Okx => "OKX",
            Venue::BybitSpot => "BYBIT_SPOT",
            Venue::BybitLinear => "BYBIT_LINEAR",
            Venue::BitgetSpot => "BITGET_SPOT",
            Venue::BitgetLinear => "BITGET_LINEAR",
            Venue::GateSpot => "GATE_SPOT",
            Venue::KucoinSpot => "KUCOIN_SPOT",
            Venue::KucoinFutures => "KUCOIN_FUTURES",
        }
    }

    /// Wire byte.
    pub fn as_u8(self) -> (res: u8)
        ensures
            res == venue_byte(self),
    {
        match self {
            Venue::Krx => 0,
            Venue::Nxt => 1,
            Venue::Smbs => 2,
            Venue::BinanceSpot => 3,
            Venue::BinanceFutures => 4,
            Venue::Upbit => 5,
            Venue::Bithumb => 6,
            Venue::Okx => 7,
            Venue::BybitSpot => 8,
            Venue::BybitLinear => 9,
            Venue::BitgetSpot => 10,
            Venue::BitgetLinear => 11,
            Venue::GateSpot => 12,
            Venue::KucoinSpot => 13,
            Venue::KucoinFutures => 14,
        }
    }

    /// Inverse of [`as_u8`](Self::as_u8).
    pub fn from_u8(v: u8) -> (res: Option<Venue>)
        ensures
            res == venue_of_byte(v),
            res is None <==> v > 14,
    {
        match v {
            0 => Some(Venue::Krx),
            1 => Some(Venue::Nxt),
            2 => Some(Venue::Smbs),
            3 => Some(Venue::BinanceSpot),
            4 => Some(Venue::BinanceFutures),
            5 => Some(Venue::Upbit),
            6 => Some(Venue::Bithumb),
            7 => Some(Venue::Okx),
            8 => Some(Venue::BybitSpot),
            9 => Some(Venue::BybitLinear),
            10 => Some(Venue::BitgetSpot),
            11 => Some(Venue::BitgetLinear),
            12 => Some(Venue::GateSpot),
            13 => Some(Venue::KucoinSpot),
            14 => Some(Venue::KucoinFutures),
            _ => None,
        }
    }

    /// Parses a venue from its ASCII tag, case-sensitive.
    pub fn from_tag(tag: &str) -> (res: Option<Venue>)
        ensures
            res == venue_of_tag(tag@),
    {
        if str_eq(tag, "KRX") {
            Some(Venue::Krx)
        } else if str_eq(tag, "NXT") {
            Some(Venue::Nxt)
        } else if str_eq(tag, "SMBS") {
            Some(Venue::Smbs)
        } else if str_eq(tag, "BINANCE_SPOT") {
            Some(Venue::BinanceSpot)
        } else if str_eq(tag, "BINANCE_FUTURES") {
            Some(Venue::BinanceFutures)
        } else if str_eq(tag, "UPBIT") {
            Some(Venue::Upbit)
        } else if str_eq(tag, "BITHUMB") {
            Some(Venue::Bithumb)
        } else if str_eq(tag, "OKX") {
            Some(Venue::Okx)
        } else if str_eq(tag, "BYBIT_SPOT") {
            Some(Venue::BybitSpot)
        } else if str_eq(tag, "BYBIT_LINEAR") {
            Some(Venue::BybitLinear)
        } else if str_eq(tag, "BITGET_SPOT") {
            Some(Venue::BitgetSpot)
        } else if str_eq(tag, "BITGET_LINEAR") {
            Some(Venue::BitgetLinear)
        } else if str_eq(tag, "GATE_SPOT") {
            Some(Venue::GateSpot)
        } else if str_eq(tag, "KUCOIN_SPOT") {
            Some(Venue::KucoinSpot)
        } else if str_eq(tag, "KUCOIN_FUTURES") {
            Some(Venue::KucoinFutures)
        } else {
            None
        }
    }
}

impl Default for Venue {
    fn default() -> (res: Venue)
        ensures
            res == Venue::Krx,
    {
        Venue::Krx
    }
}

/// A venue's wire byte reads back as that venue, and the bytes past the last
/// venue read back as none.
pub proof fn law_venue_byte_round_trip(v: Venue, b: u8)
    ensures
        venue_of_byte(venue_byte(v)) == Some(v),
        venue_of_byte(b) matches Some(w) ==> venue_byte(w) == b,
        venue_of_byte(b) is None <==> b > 14,
{
}

/// A venue's tag parses back as that venue.
pub proof fn law_venue_tag_round_trip(v: Venue)
    ensures
        venue_of_tag(venue_tag(v)@) == Some(v),
{
    reveal_strlit("KRX");
    reveal_strlit("NXT");
    reveal_strlit("SMBS");
    reveal_strlit("BINANCE_SPOT");
    reveal_strlit("BINANCE_FUTURES");
    reveal_strlit("UPBIT");
    reveal_strlit("BITHUMB");
    reveal_strlit("OKX");
    reveal_strlit("BYBIT_SPOT");
    reveal_strlit("BYBIT_LINEAR");
    reveal_strlit("BITGET_SPOT");
    reveal_strlit("BITGET_LINEAR");
    reveal_strlit("GATE_SPOT");
    reveal_strlit("KUCOIN_SPOT");
    reveal_strlit("KUCOIN_FUTURES");
    assert("KRX"@.len() == 3);
    assert("NXT"@.len() == 3);
    assert("SMBS"@.len() == 4);
    assert("BINANCE_SPOT"@.len() == 12);
    assert("BINANCE_FUTURES"@.len() == 15);
    assert("UPBIT"@.len() == 5);
    assert("BITHUMB"@.len() == 7);
    assert("OKX"@.len() == 3);
    assert("BYBIT_SPOT"@.len() == 10);
    assert("BYBIT_LINEAR"@.len() == 12);
    assert("BITGET_SPOT"@.len() == 11);
    assert("BITGET_LINEAR"@.len() == 13);
    assert("GATE_SPOT"@.len() == 9);
    assert("KUCOIN_SPOT"@.len() == 11);
    assert("KUCOIN_FUTURES"@.len() == 14);
    match v {
        Venue::Krx => { assert(venue_tag(v)@ == "KRX"@);  assert(venue_of_tag(venue_tag(v)@) == Some(v)); },
        Venue::Nxt => { assert("NXT"@[0] != "KRX"@[0]);  assert(venue_of_tag(venue_tag(v)@) == Some(v)); },
        Venue::Smbs => { assert(venue_of_tag(venue_tag(v)@) == Some(v)); },
        Venue::BinanceSpot => { assert(venue_of_tag(venue_tag(v)@) == Some(v)); },
        Venue::BinanceFutures => { assert(venue_of_tag(venue_tag(v)@) == Some(v)); },
        Venue::Upbit => { assert(venue_of_tag(venue_tag(v)@) == Some(v)); },
        Venue::Bithumb => { assert(venue_of_tag(venue_tag(v)@) == Some(v)); },
        Venue::Okx => {
            assert("OKX"@[0] != "KRX"@[0]);
            assert("OKX"@[0] != "NXT"@[0]);
         assert(venue_of_tag(venue_tag(v)@) == Some(v)); },
        Venue::BybitSpot => { assert(venue_of_tag(venue_tag(v)@) == Some(v)); },
        Venue::BybitLinear => { assert("BYBIT_LINEAR"@[1] != "BINANCE_SPOT"@[1]);  assert(venue_of_tag(venue_tag(v)@) == Some(v)); },
        Venue::BitgetSpot => { assert(venue_of_tag(venue_tag(v)@) == Some(v)); },
        Venue::BitgetLinear => { assert(venue_of_tag(venue_tag(v)@) == Some(v)); },
        Venue::GateSpot => { assert(venue_of_tag(venue_tag(v)@) == Some(v)); },
        Venue::KucoinSpot => { assert("KUCOIN_SPOT"@[0] != "BITGET_SPOT"@[0]);  assert(venue_of_tag(venue_tag(v)@) == Some(v)); },
        Venue::KucoinFutures => { assert(venue_of_tag(venue_tag(v)@) == Some(v)); },
    }
}

/// Decimal scale of an integer price or quantity: the value is
/// `raw / 10^decimals`. The wire byte is the decimal count.
#[derive(Debug, Clone, Copy, PartialEq, Eq, Hash, Structural)]
pub enum Scale {
    /// Integer (10^0).
    S0,
    /// 1 decimal place.
    S1,
    /// 2 decimal places.
    S2,
    /// 3 decimal places.
    S3,
    /// 4 decimal places.
    S4,
    /// 5 decimal places.
    S5,
    /// 6 decimal places.
    S6,
    /// 7 decimal places.
    S7,
    /// 8 decimal places.
    S8,
}

/// Number of decimal places of a scale: also its wire byte.
pub open spec fn scale_decimals(s: Scale) -> u8 {
    match s {
        Scale::S0 => 0,
        Scale::S1 => 1,
        Scale::S2 => 2,
        Scale::S3 => 3,
        Scale::S4 => 4,
        Scale::S5 => 5,
        Scale::S6 => 6,
        Scale::S7 => 7,
        Scale::S8 => 8,
    }
}

/// The scale with `d` decimal places, if `d` is at most eight.
pub open spec fn scale_of_decimals(d: int) -> Option<Scale> {
    if d == 0 {
        Some(Scale::S0)
    } else if d == 1 {
        Some(Scale::S1)
    } else if d == 2 {
        Some(Scale::S2)
    } else if d == 3 {
        Some(Scale::S3)
    } else if d == 4 {
        Some(Scale::S4)
    } else if d == 5 {
        Some(Scale::S5)
    } else if d == 6 {
        Some(Scale::S6)
    } else if d == 7 {
        Some(Scale::S7)
    } else if d == 8 {
        Some(Scale::S8)
    } else {
        None
    }
}

/// `10^n`.
pub open spec fn pow10(n: nat) -> nat
    decreases n,
{
    if n == 0 {
        1
    } else {
        10 * pow10((n - 1) as nat)
    }
}

impl Scale {
    /// Scale for a decimal count. `None` past 8 places.
    pub fn from_decimals(decimals: usize) -> (res: Option<Scale>)
        ensures
            res == scale_of_decimals(decimals as int),
            res is None <==> decimals > 8,
    {
        match decimals {
            0 => Some(Scale::S0),
            1 => Some(Scale::S1),
            2 => Some(Scale::S2),
            3 => Some(Scale::S3),
            4 => Some(Scale::S4),
            5 => Some(Scale::S5),
            6 => Some(Scale::S6),
            7 => Some(Scale::S7),
            8 => Some(Scale::S8),
            _ => None,
        }
    }

    /// Number of decimal places, which is also the wire byte.
    pub fn decimals(self) -> (res: u8)
        ensures
            res == scale_decimals(self),
    {
        match self {
            Scale::S0 => 0,
            Scale::S1 => 1,
            Scale::S2 => 2,
            Scale::S3 => 3,
            Scale::S4 => 4,
            Scale::S5 => 5,
            Scale::S6 => 6,
            Scale::S7 => 7,
            Scale::S8 => 8,
        }
    }

    /// `10^decimals`.
    pub fn divisor(self) -> (res: u64)
        ensures
            res as nat == pow10(scale_decimals(self) as nat),
    {
        reveal_with_fuel(pow10, 9);
        match self {
            Scale::S0 => 1,
            Scale::S1 => 10,
            Scale::S2 => 100,
            Scale::S3 => 1_000,
            Scale::S4 => 10_000,
            Scale::S5 => 100_000,
            Scale::S6 => 1_000_000,
            Scale::S7 => 10_000_000,
            Scale::S8 => 100_000_000,
        }
    }
}

impl Default for Scale {
    fn default() -> (res: Scale)
        ensures
            res == Scale::S0,
    {
        Scale::S0
    }
}

/// A scale's decimal count reads back as that scale, and only `0..=8` name
/// a scale.
pub proof fn law_scale_round_trip(s: Scale, d: int)
    ensures
        scale_of_decimals(scale_decimals(s) as int) == Some(s),
        scale_of_decimals(d) matches Some(t) ==> scale_decimals(t) == d,
        scale_of_decimals(d) is None <==> (d < 0 || d > 8),
{
}

/// The venue bytes are the wire ABI's: 0 KRX, 1 NXT, 2 SMBS, 3 Binance
/// spot, 4 Binance futures, 5 Upbit, 6 Bithumb, 7 OKX, 8 Bybit spot, 9 Bybit
/// linear, 10 Bitget spot, 11 Bitget linear, 12 Gate spot, 13 KuCoin spot,
/// 14 KuCoin futures; every byte above 14 names no venue.
pub proof fn law_venue_codes(b: u8)
    ensures
        venue_of_byte(b) == (if b == 0 {
            Some(Venue::Krx)
        } else if b == 1 {
            Some(Venue::Nxt)
        } else if b == 2 {
            Some(Venue::Smbs)
        } else if b == 3 {
            Some(Venue::BinanceSpot)
        } else if b == 4 {
            Some(Venue::BinanceFutures)
        } else if b == 5 {
            Some(Venue::Upbit)
        } else if b == 6 {
            Some(Venue::Bithumb)
        } else if b == 7 {
            Some(Venue::Okx)
        } else if b == 8 {
            Some(Venue::BybitSpot)
        } else if b == 9 {
            Some(Venue::BybitLinear)
        } else if b == 10 {
            Some(Venue::BitgetSpot)
        } else if b == 11 {
            Some(Venue::BitgetLinear)
        } else if b == 12 {
            Some(Venue::GateSpot)
        } else if b == 13 {
            Some(Venue::KucoinSpot)
        } else if b == 14 {
            Some(Venue::KucoinFutures)
        } else {
            None::<Venue>
        }),
        venue_of_byte(b) matches Some(v) ==> venue_byte(v) == b,
{
}

} // verus!
