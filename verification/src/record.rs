//! The fixed-size wire record and its byte image.
use vstd::prelude::*;

use crate::codec::{holds_i32, holds_i64, holds_u32, holds_u64, holds_u8};
use crate::error::WireError;
use crate::header::{RecordHeader, header_check, is_zero_header, zeros};
use crate::kind::{
    WireKind, decode_kind, dyn_limit_action, expansion_direction, kind_byte, kind_of_byte, law_kind_byte_round_trip,
    level_ext, quote_ext, trade_kind,
};
use crate::layout::{
    delta_level_at, dynamic_price_limit_at, header_at, heartbeat_at, level_at, investor_stats_at, market_schedule_at,
    open_interest_at, price_limit_at, quote_at, read_dynamic_price_limit, read_header, read_heartbeat,
    read_investor_stats, read_market_schedule, read_open_interest, read_price_limit, read_quote,
    read_snapshot_delta, read_trade, read_trade_quote, snapshot_delta_at, trade_at, trade_quote_at,
    write_dynamic_price_limit, write_header, write_heartbeat, write_investor_stats,
    write_market_schedule, write_open_interest, write_price_limit, write_quote,
    write_snapshot_delta, write_trade, write_trade_quote,
};
use crate::payload::{
    DynamicPriceLimitPayload, HeartbeatPayload, InvestorStatsPayload, MarketSchedulePayload,
    OpenInterestPayload, PriceLimitPayload, QuotePayload, SnapshotDeltaPayload, TradePayload,
    TradeQuotePayload,
};

verus! {

/// One ring slot: a 64-byte header, the 544-byte payload area whose meaning
/// the header kind decides, and 32 bytes of explicit tail (640 bytes).
///
/// The payload area is kept as bytes: a typed view reads a payload out of
/// it, and installing a payload writes its image and zeroes the rest, so a
/// short payload never leaves a longer one's tail visible.
#[derive(Debug, Clone, Copy, PartialEq, Eq)]
pub struct WireRecord {
    /// Fixed header.
    pub header: RecordHeader,
    /// The payload area: the image of whichever payload the header kind
    /// names, zero past its end.
    pub payload: [u8; 544],
    /// Explicit tail padding.
    pub tail: [u8; 32],
}

/// Every byte of `s` from `from` on is zero.
pub open spec fn zero_from(s: Seq<u8>, from: int) -> bool {
    forall|i: int| from <= i < s.len() ==> #[trigger] s[i] == 0u8
}

/// What a typed accessor for `expected` answers on a record whose kind byte
/// is `b`: the kind error, a mismatch, or go-ahead.
pub open spec fn kind_gate(b: u8, expected: WireKind) -> Result<(), WireError> {
    match decode_kind(b) {
        Err(e) => Err(e),
        Ok(found) => if found == expected {
            Ok(())
        } else {
            Err(WireError::KindMismatch { expected, found })
        },
    }
}

/// Check of a quote's two encoding bytes.
pub open spec fn quote_check(level_ext_kind: u8, quote_ext_kind: u8) -> Result<(), WireError> {
    if level_ext_kind > 2 {
        Err(WireError::LevelExtKind { found: level_ext_kind })
    } else if quote_ext_kind > 3 {
        Err(WireError::QuoteExtKind { found: quote_ext_kind })
    } else {
        Ok(())
    }
}

/// Check of a trade's aggressor byte.
pub open spec fn trade_check(trade_kind: u8) -> Result<(), WireError> {
    if trade_kind > 3 {
        Err(WireError::TradeKind { found: trade_kind })
    } else {
        Ok(())
    }
}

/// Check of the kind-specific encodings of a payload image `p` of kind `k`.
pub open spec fn payload_check(k: WireKind, p: Seq<u8>) -> Result<(), WireError> {
    match k {
        WireKind::Quote => quote_check(p[488], p[489]),
        WireKind::Trade => trade_check(p[44]),
        WireKind::TradeQuote => match trade_check(p[44]) {
            Err(e) => Err(e),
            Ok(_) => quote_check(p[536], p[537]),
        },
        WireKind::MarketSchedule => if p[63] > 2 {
            Err(WireError::ExpansionDirection { found: p[63] })
        } else {
            Ok(())
        },
        WireKind::DynamicPriceLimit => if p[33] > 2 {
            Err(WireError::DynLimitAction { found: p[33] })
        } else {
            Ok(())
        },
        WireKind::SnapshotDelta => if p[528] as int + p[529] as int > 32 {
            Err(WireError::DeltaLevelCount { bid: p[528], ask: p[529], max: 32 })
        } else {
            Ok(())
        },
        _ => Ok(()),
    }
}

/// Full validation of a header and its payload image: the header checks,
/// then the kind-specific encodings.
pub open spec fn record_check(h: RecordHeader, p: Seq<u8>) -> Result<(), WireError> {
    match header_check(h) {
        Err(e) => Err(e),
        Ok(_) => payload_check(kind_of_byte(h.kind).unwrap(), p),
    }
}

/// `s` is the 640-byte image of `r`: header, payload area, tail.
pub open spec fn record_image(s: Seq<u8>, r: WireRecord) -> bool {
    &&& s.len() == 640
    &&& header_at(s, 0, r.header)
    &&& r.payload_image() == s.subrange(64, 608)
    &&& r.tail_image() == s.subrange(608, 640)
}

impl WireRecord {
    /// The payload area's bytes.
    pub open spec fn payload_image(&self) -> Seq<u8> {
        self.payload@
    }

    /// The tail padding's bytes.
    pub open spec fn tail_image(&self) -> Seq<u8> {
        self.tail@
    }

    /// All-zero record. Its kind byte is `0`, so it fails validation until a
    /// payload is installed.
    pub fn zeroed() -> (res: WireRecord)
        ensures
            is_zero_header(res.header),
            res.payload_image() == zeros(544),
            res.tail_image() == zeros(32),
    {
        let r = WireRecord { header: RecordHeader::zeroed(), payload: [0u8; 544], tail: [0u8; 32] };
        assert(r.payload@ =~= zeros(544));
        assert(r.tail@ =~= zeros(32));
        r
    }

    /// Zero payload with the given header.
    pub fn with_header(header: RecordHeader) -> (res: WireRecord)
        ensures
            res.header == header,
            res.payload_image() == zeros(544),
            res.tail_image() == zeros(32),
    {
        let r = WireRecord { header, payload: [0u8; 544], tail: [0u8; 32] };
        assert(r.payload@ =~= zeros(544));
        assert(r.tail@ =~= zeros(32));
        r
    }

    /// Decoded record kind.
    pub fn kind(&self) -> (res: Result<WireKind, WireError>)
        ensures
            res == decode_kind(self.header.kind),
    {
        self.header.kind()
    }

    /// Raw payload bytes.
    pub fn payload_bytes(&self) -> (res: &[u8; 544])
        ensures
            res@ == self.payload_image(),
    {
        &self.payload
    }

    fn expect_kind(&self, expected: WireKind) -> (res: Result<(), WireError>)
        ensures
            res == kind_gate(self.header.kind, expected),
    {
        let found = self.kind()?;
        if found == expected {
            Ok(())
        } else {
            Err(WireError::KindMismatch { expected, found })
        }
    }

    /// Payload view for [`WireKind::Quote`]: the payload area read as a
    /// `QuotePayload`, or the kind error when the header names another kind.
    pub fn quote(&self) -> (res: Result<QuotePayload, WireError>)
        ensures
            match kind_gate(self.header.kind, WireKind::Quote) {
                Err(e) => res == Err::<QuotePayload, WireError>(e),
                Ok(_) => res matches Ok(p) && quote_at(self.payload_image(), 0, p),
            },
    {
        self.expect_kind(WireKind::Quote)?;
        Ok(read_quote(self.payload.as_slice(), 0))
    }

    /// Installs a [`WireKind::Quote`] payload, zeroing the rest of the
    /// payload area and setting the header kind.
    pub fn set_quote(&mut self, payload: QuotePayload) -> (r: &mut WireRecord)
        ensures
            r.header == (RecordHeader { kind: kind_byte(WireKind::Quote), ..old(self).header }),
            quote_at(r.payload_image(), 0, payload),
            zero_from(r.payload_image(), 496),
            r.tail_image() == old(self).tail_image(),
            *final(self) == *final(r),
    {
        self.payload = [0u8; 544];
        assert(self.payload@ =~= zeros(544));
        write_quote_into(&mut self.payload, &payload);
        self.header.kind = WireKind::Quote.as_u8();
        self
    }

    /// Builds a [`WireKind::Quote`] record.
    pub fn new_quote(header: RecordHeader, payload: QuotePayload) -> (res: WireRecord)
        ensures
            res.header == (RecordHeader { kind: kind_byte(WireKind::Quote), ..header }),
            quote_at(res.payload_image(), 0, payload),
            zero_from(res.payload_image(), 496),
            res.tail_image() == zeros(32),
    {
        let mut rec = WireRecord::with_header(header);
        rec.set_quote(payload);
        rec
    }

    /// Payload view for [`WireKind::Trade`]: the payload area read as a
    /// `TradePayload`, or the kind error when the header names another kind.
    pub fn trade(&self) -> (res: Result<TradePayload, WireError>)
        ensures
            match kind_gate(self.header.kind, WireKind::Trade) {
                Err(e) => res == Err::<TradePayload, WireError>(e),
                Ok(_) => res matches Ok(p) && trade_at(self.payload_image(), 0, p),
            },
    {
        self.expect_kind(WireKind::Trade)?;
        Ok(read_trade(self.payload.as_slice(), 0))
    }

    /// Installs a [`WireKind::Trade`] payload, zeroing the rest of the
    /// payload area and setting the header kind.
    pub fn set_trade(&mut self, payload: TradePayload) -> (r: &mut WireRecord)
        ensures
            r.header == (RecordHeader { kind: kind_byte(WireKind::Trade), ..old(self).header }),
            trade_at(r.payload_image(), 0, payload),
            zero_from(r.payload_image(), 48),
            r.tail_image() == old(self).tail_image(),
            *final(self) == *final(r),
    {
        self.payload = [0u8; 544];
        assert(self.payload@ =~= zeros(544));
        write_trade_into(&mut self.payload, &payload);
        self.header.kind = WireKind::Trade.as_u8();
        self
    }

    /// Builds a [`WireKind::Trade`] record.
    pub fn new_trade(header: RecordHeader, payload: TradePayload) -> (res: WireRecord)
        ensures
            res.header == (RecordHeader { kind: kind_byte(WireKind::Trade), ..header }),
            trade_at(res.payload_image(), 0, payload),
            zero_from(res.payload_image(), 48),
            res.tail_image() == zeros(32),
    {
        let mut rec = WireRecord::with_header(header);
        rec.set_trade(payload);
        rec
    }

    /// Payload view for [`WireKind::TradeQuote`]: the payload area read as a
    /// `TradeQuotePayload`, or the kind error when the header names another kind.
    pub fn trade_quote(&self) -> (res: Result<TradeQuotePayload, WireError>)
        ensures
            match kind_gate(self.header.kind, WireKind::TradeQuote) {
                Err(e) => res == Err::<TradeQuotePayload, WireError>(e),
                Ok(_) => res matches Ok(p) && trade_quote_at(self.payload_image(), 0, p),
            },
    {
        self.expect_kind(WireKind::TradeQuote)?;
        Ok(read_trade_quote(self.payload.as_slice(), 0))
    }

    /// Installs a [`WireKind::TradeQuote`] payload, zeroing the rest of the
    /// payload area and setting the header kind.
    pub fn set_trade_quote(&mut self, payload: TradeQuotePayload) -> (r: &mut WireRecord)
        ensures
            r.header == (RecordHeader { kind: kind_byte(WireKind::TradeQuote), ..old(self).header }),
            trade_quote_at(r.payload_image(), 0, payload),
            zero_from(r.payload_image(), 544),
            r.tail_image() == old(self).tail_image(),
            *final(self) == *final(r),
    {
        self.payload = [0u8; 544];
        assert(self.payload@ =~= zeros(544));
        write_trade_quote_into(&mut self.payload, &payload);
        self.header.kind = WireKind::TradeQuote.as_u8();
        self
    }

    /// Builds a [`WireKind::TradeQuote`] record.
    pub fn new_trade_quote(header: RecordHeader, payload: TradeQuotePayload) -> (res: WireRecord)
        ensures
            res.header == (RecordHeader { kind: kind_byte(WireKind::TradeQuote), ..header }),
            trade_quote_at(res.payload_image(), 0, payload),
            zero_from(res.payload_image(), 544),
            res.tail_image() == zeros(32),
    {
        let mut rec = WireRecord::with_header(header);
        rec.set_trade_quote(payload);
        rec
    }

    /// Payload view for [`WireKind::OpenInterest`]: the payload area read as a
    /// `OpenInterestPayload`, or the kind error when the header names another kind.
    pub fn open_interest(&self) -> (res: Result<OpenInterestPayload, WireError>)
        ensures
            match kind_gate(self.header.kind, WireKind::OpenInterest) {
                Err(e) => res == Err::<OpenInterestPayload, WireError>(e),
                Ok(_) => res matches Ok(p) && open_interest_at(self.payload_image(), 0, p),
            },
    {
        self.expect_kind(WireKind::OpenInterest)?;
        Ok(read_open_interest(self.payload.as_slice(), 0))
    }

    /// Installs a [`WireKind::OpenInterest`] payload, zeroing the rest of the
    /// payload area and setting the header kind.
    pub fn set_open_interest(&mut self, payload: OpenInterestPayload) -> (r: &mut WireRecord)
        ensures
            r.header == (RecordHeader { kind: kind_byte(WireKind::OpenInterest), ..old(self).header }),
            open_interest_at(r.payload_image(), 0, payload),
            zero_from(r.payload_image(), 8),
            r.tail_image() == old(self).tail_image(),
            *final(self) == *final(r),
    {
        self.payload = [0u8; 544];
        assert(self.payload@ =~= zeros(544));
        write_open_interest_into(&mut self.payload, &payload);
        self.header.kind = WireKind::OpenInterest.as_u8();
        self
    }

    /// Builds a [`WireKind::OpenInterest`] record.
    pub fn new_open_interest(header: RecordHeader, payload: OpenInterestPayload) -> (res: WireRecord)
        ensures
            res.header == (RecordHeader { kind: kind_byte(WireKind::OpenInterest), ..header }),
            open_interest_at(res.payload_image(), 0, payload),
            zero_from(res.payload_image(), 8),
            res.tail_image() == zeros(32),
    {
        let mut rec = WireRecord::with_header(header);
        rec.set_open_interest(payload);
        rec
    }

    /// Payload view for [`WireKind::InvestorStats`]: the payload area read as a
    /// `InvestorStatsPayload`, or the kind error when the header names another kind.
    pub fn investor_stats(&self) -> (res: Result<InvestorStatsPayload, WireError>)
        ensures
            match kind_gate(self.header.kind, WireKind::InvestorStats) {
                Err(e) => res == Err::<InvestorStatsPayload, WireError>(e),
                Ok(_) => res matches Ok(p) && investor_stats_at(self.payload_image(), 0, p),
            },
    {
        self.expect_kind(WireKind::InvestorStats)?;
        Ok(read_investor_stats(self.payload.as_slice(), 0))
    }

    /// Installs a [`WireKind::InvestorStats`] payload, zeroing the rest of the
    /// payload area and setting the header kind.
    pub fn set_investor_stats(&mut self, payload: InvestorStatsPayload) -> (r: &mut WireRecord)
        ensures
            r.header == (RecordHeader { kind: kind_byte(WireKind::InvestorStats), ..old(self).header }),
            investor_stats_at(r.payload_image(), 0, payload),
            zero_from(r.payload_image(), 48),
            r.tail_image() == old(self).tail_image(),
            *final(self) == *final(r),
    {
        self.payload = [0u8; 544];
        assert(self.payload@ =~= zeros(544));
        write_investor_stats_into(&mut self.payload, &payload);
        self.header.kind = WireKind::InvestorStats.as_u8();
        self
    }

    /// Builds a [`WireKind::InvestorStats`] record.
    pub fn new_investor_stats(header: RecordHeader, payload: InvestorStatsPayload) -> (res: WireRecord)
        ensures
            res.header == (RecordHeader { kind: kind_byte(WireKind::InvestorStats), ..header }),
            investor_stats_at(res.payload_image(), 0, payload),
            zero_from(res.payload_image(), 48),
            res.tail_image() == zeros(32),
    {
        let mut rec = WireRecord::with_header(header);
        rec.set_investor_stats(payload);
        rec
    }

    /// Payload view for [`WireKind::SnapshotDelta`]: the payload area read as a
    /// `SnapshotDeltaPayload`, or the kind error when the header names another kind.
    pub fn snapshot_delta(&self) -> (res: Result<SnapshotDeltaPayload, WireError>)
        ensures
            match kind_gate(self.header.kind, WireKind::SnapshotDelta) {
                Err(e) => res == Err::<SnapshotDeltaPayload, WireError>(e),
                Ok(_) => res matches Ok(p) && snapshot_delta_at(self.payload_image(), 0, p),
            },
    {
        self.expect_kind(WireKind::SnapshotDelta)?;
        Ok(read_snapshot_delta(self.payload.as_slice(), 0))
    }

    /// Installs a [`WireKind::SnapshotDelta`] payload, zeroing the rest of the
    /// payload area and setting the header kind.
    pub fn set_snapshot_delta(&mut self, payload: SnapshotDeltaPayload) -> (r: &mut WireRecord)
        ensures
            r.header == (RecordHeader { kind: kind_byte(WireKind::SnapshotDelta), ..old(self).header }),
            snapshot_delta_at(r.payload_image(), 0, payload),
            zero_from(r.payload_image(), 544),
            r.tail_image() == old(self).tail_image(),
            *final(self) == *final(r),
    {
        self.payload = [0u8; 544];
        assert(self.payload@ =~= zeros(544));
        write_snapshot_delta_into(&mut self.payload, &payload);
        self.header.kind = WireKind::SnapshotDelta.as_u8();
        self
    }

    /// Builds a [`WireKind::SnapshotDelta`] record.
    pub fn new_snapshot_delta(header: RecordHeader, payload: SnapshotDeltaPayload) -> (res: WireRecord)
        ensures
            res.header == (RecordHeader { kind: kind_byte(WireKind::SnapshotDelta), ..header }),
            snapshot_delta_at(res.payload_image(), 0, payload),
            zero_from(res.payload_image(), 544),
            res.tail_image() == zeros(32),
    {
        let mut rec = WireRecord::with_header(header);
        rec.set_snapshot_delta(payload);
        rec
    }

    /// Payload view for [`WireKind::PriceLimit`]: the payload area read as a
    /// `PriceLimitPayload`, or the kind error when the header names another kind.
    pub fn price_limit(&self) -> (res: Result<PriceLimitPayload, WireError>)
        ensures
            match kind_gate(self.header.kind, WireKind::PriceLimit) {
                Err(e) => res == Err::<PriceLimitPayload, WireError>(e),
                Ok(_) => res matches Ok(p) && price_limit_at(self.payload_image(), 0, p),
            },
    {
        self.expect_kind(WireKind::PriceLimit)?;
        Ok(read_price_limit(self.payload.as_slice(), 0))
    }

    /// Installs a [`WireKind::PriceLimit`] payload, zeroing the rest of the
    /// payload area and setting the header kind.
    pub fn set_price_limit(&mut self, payload: PriceLimitPayload) -> (r: &mut WireRecord)
        ensures
            r.header == (RecordHeader { kind: kind_byte(WireKind::PriceLimit), ..old(self).header }),
            price_limit_at(r.payload_image(), 0, payload),
            zero_from(r.payload_image(), 40),
            r.tail_image() == old(self).tail_image(),
            *final(self) == *final(r),
    {
        self.payload = [0u8; 544];
        assert(self.payload@ =~= zeros(544));
        write_price_limit_into(&mut self.payload, &payload);
        self.header.kind = WireKind::PriceLimit.as_u8();
        self
    }

    /// Builds a [`WireKind::PriceLimit`] record.
    pub fn new_price_limit(header: RecordHeader, payload: PriceLimitPayload) -> (res: WireRecord)
        ensures
            res.header == (RecordHeader { kind: kind_byte(WireKind::PriceLimit), ..header }),
            price_limit_at(res.payload_image(), 0, payload),
            zero_from(res.payload_image(), 40),
            res.tail_image() == zeros(32),
    {
        let mut rec = WireRecord::with_header(header);
        rec.set_price_limit(payload);
        rec
    }

    /// Payload view for [`WireKind::MarketSchedule`]: the payload area read as a
    /// `MarketSchedulePayload`, or the kind error when the header names another kind.
    pub fn market_schedule(&self) -> (res: Result<MarketSchedulePayload, WireError>)
        ensures
            match kind_gate(self.header.kind, WireKind::MarketSchedule) {
                Err(e) => res == Err::<MarketSchedulePayload, WireError>(e),
                Ok(_) => res matches Ok(p) && market_schedule_at(self.payload_image(), 0, p),
            },
    {
        self.expect_kind(WireKind::MarketSchedule)?;
        Ok(read_market_schedule(self.payload.as_slice(), 0))
    }

    /// Installs a [`WireKind::MarketSchedule`] payload, zeroing the rest of the
    /// payload area and setting the header kind.
    pub fn set_market_schedule(&mut self, payload: MarketSchedulePayload) -> (r: &mut WireRecord)
        ensures
            r.header == (RecordHeader { kind: kind_byte(WireKind::MarketSchedule), ..old(self).header }),
            market_schedule_at(r.payload_image(), 0, payload),
            zero_from(r.payload_image(), 72),
            r.tail_image() == old(self).tail_image(),
            *final(self) == *final(r),
    {
        self.payload = [0u8; 544];
        assert(self.payload@ =~= zeros(544));
        write_market_schedule_into(&mut self.payload, &payload);
        self.header.kind = WireKind::MarketSchedule.as_u8();
        self
    }

    /// Builds a [`WireKind::MarketSchedule`] record.
    pub fn new_market_schedule(header: RecordHeader, payload: MarketSchedulePayload) -> (res: WireRecord)
        ensures
            res.header == (RecordHeader { kind: kind_byte(WireKind::MarketSchedule), ..header }),
            market_schedule_at(res.payload_image(), 0, payload),
            zero_from(res.payload_image(), 72),
            res.tail_image() == zeros(32),
    {
        let mut rec = WireRecord::with_header(header);
        rec.set_market_schedule(payload);
        rec
    }

    /// Payload view for [`WireKind::DynamicPriceLimit`]: the payload area read as a
    /// `DynamicPriceLimitPayload`, or the kind error when the header names another kind.
    pub fn dynamic_price_limit(&self) -> (res: Result<DynamicPriceLimitPayload, WireError>)
        ensures
            match kind_gate(self.header.kind, WireKind::DynamicPriceLimit) {
                Err(e) => res == Err::<DynamicPriceLimitPayload, WireError>(e),
                Ok(_) => res matches Ok(p) && dynamic_price_limit_at(self.payload_image(), 0, p),
            },
    {
        self.expect_kind(WireKind::DynamicPriceLimit)?;
        Ok(read_dynamic_price_limit(self.payload.as_slice(), 0))
    }

    /// Installs a [`WireKind::DynamicPriceLimit`] payload, zeroing the rest of the
    /// payload area and setting the header kind.
    pub fn set_dynamic_price_limit(&mut self, payload: DynamicPriceLimitPayload) -> (r: &mut WireRecord)
        ensures
            r.header == (RecordHeader { kind: kind_byte(WireKind::DynamicPriceLimit), ..old(self).header }),
            dynamic_price_limit_at(r.payload_image(), 0, payload),
            zero_from(r.payload_image(), 40),
            r.tail_image() == old(self).tail_image(),
            *final(self) == *final(r),
    {
        self.payload = [0u8; 544];
        assert(self.payload@ =~= zeros(544));
        write_dynamic_price_limit_into(&mut self.payload, &payload);
        self.header.kind = WireKind::DynamicPriceLimit.as_u8();
        self
    }

    /// Builds a [`WireKind::DynamicPriceLimit`] record.
    pub fn new_dynamic_price_limit(header: RecordHeader, payload: DynamicPriceLimitPayload) -> (res: WireRecord)
        ensures
            res.header == (RecordHeader { kind: kind_byte(WireKind::DynamicPriceLimit), ..header }),
            dynamic_price_limit_at(res.payload_image(), 0, payload),
            zero_from(res.payload_image(), 40),
            res.tail_image() == zeros(32),
    {
        let mut rec = WireRecord::with_header(header);
        rec.set_dynamic_price_limit(payload);
        rec
    }

    /// Payload view for [`WireKind::Heartbeat`]: the payload area read as a
    /// `HeartbeatPayload`, or the kind error when the header names another kind.
    pub fn heartbeat(&self) -> (res: Result<HeartbeatPayload, WireError>)
        ensures
            match kind_gate(self.header.kind, WireKind::Heartbeat) {
                Err(e) => res == Err::<HeartbeatPayload, WireError>(e),
                Ok(_) => res matches Ok(p) && heartbeat_at(self.payload_image(), 0, p),
            },
    {
        self.expect_kind(WireKind::Heartbeat)?;
        Ok(read_heartbeat(self.payload.as_slice(), 0))
    }

    /// Installs a [`WireKind::Heartbeat`] payload, zeroing the rest of the
    /// payload area and setting the header kind.
    pub fn set_heartbeat(&mut self, payload: HeartbeatPayload) -> (r: &mut WireRecord)
        ensures
            r.header == (RecordHeader { kind: kind_byte(WireKind::Heartbeat), ..old(self).header }),
            heartbeat_at(r.payload_image(), 0, payload),
            zero_from(r.payload_image(), 16),
            r.tail_image() == old(self).tail_image(),
            *final(self) == *final(r),
    {
        self.payload = [0u8; 544];
        assert(self.payload@ =~= zeros(544));
        write_heartbeat_into(&mut self.payload, &payload);
        self.header.kind = WireKind::Heartbeat.as_u8();
        self
    }

    /// Builds a [`WireKind::Heartbeat`] record.
    pub fn new_heartbeat(header: RecordHeader, payload: HeartbeatPayload) -> (res: WireRecord)
        ensures
            res.header == (RecordHeader { kind: kind_byte(WireKind::Heartbeat), ..header }),
            heartbeat_at(res.payload_image(), 0, payload),
            zero_from(res.payload_image(), 16),
            res.tail_image() == zeros(32),
    {
        let mut rec = WireRecord::with_header(header);
        rec.set_heartbeat(payload);
        rec
    }

    /// Full validation: header enumerations, depth bound, and the
    /// kind-specific encodings a consumer will need to decode.
    pub fn validate(&self) -> (res: Result<(), WireError>)
        ensures
            res == record_check(self.header, self.payload_image()),
    {
        self.header.validate()?;
        let k = self.kind()?;
        match k {
            WireKind::Quote => validate_quote(&self.quote()?),
            WireKind::Trade => validate_trade(&self.trade()?),
            WireKind::TradeQuote => {
                let tq = self.trade_quote()?;
                validate_trade(&tq.trade)?;
                validate_quote(&tq.quote)
            },
            WireKind::MarketSchedule => {
                let ms = self.market_schedule()?;
                if ms.expansion_direction == expansion_direction::NOT_APPLICABLE
                    || ms.expansion_direction == expansion_direction::UP
                    || ms.expansion_direction == expansion_direction::DOWN {
                    Ok(())
                } else {
                    Err(WireError::ExpansionDirection { found: ms.expansion_direction })
                }
            },
            WireKind::DynamicPriceLimit => {
                let d = self.dynamic_price_limit()?;
                if d.action == dyn_limit_action::UNKNOWN || d.action == dyn_limit_action::APPLIED
                    || d.action == dyn_limit_action::RELEASED {
                    Ok(())
                } else {
                    Err(WireError::DynLimitAction { found: d.action })
                }
            },
            WireKind::SnapshotDelta => {
                let d = self.snapshot_delta()?;
                if d.bid_count as usize + d.ask_count as usize > crate::WIRE_MAX_DELTA_LEVELS {
                    Err(WireError::DeltaLevelCount { bid: d.bid_count, ask: d.ask_count, max: 32 })
                } else {
                    Ok(())
                }
            },
            WireKind::OpenInterest | WireKind::InvestorStats | WireKind::PriceLimit
            | WireKind::Heartbeat => Ok(()),
        }
    }

    /// The record as bytes: its 640-byte image.
    pub fn as_bytes(&self) -> (res: [u8; 640])
        ensures
            record_image(res@, *self),
    {
        let mut out = [0u8; 640];
        write_header(&mut out, 0, &self.header);
        let ghost b1 = out@;
        crate::codec::put_bytes(&mut out, 64, self.payload.as_slice());
        let ghost b2 = out@;
        crate::codec::put_bytes(&mut out, 608, self.tail.as_slice());
        proof {
            crate::layout::lemma_header_kept(b1, out@, 0);
            assert forall|k: int| 0 <= k < 544 implies #[trigger] out@.subrange(64, 608)[k] == self.payload@[k] by {
                assert(b2[64 + k] == self.payload@[k]);
                assert(out@[64 + k] == b2[64 + k]);
            }
            assert forall|k: int| 0 <= k < 32 implies #[trigger] out@.subrange(608, 640)[k] == self.tail@[k] by {
                assert(out@[608 + k] == self.tail@[k]);
            }
            assert(out@.subrange(64, 608) =~= self.payload@);
            assert(out@.subrange(608, 640) =~= self.tail@);
        }
        out
    }

    /// Copies a record out of a byte slice and validates it. The slice need
    /// not be aligned.
    pub fn from_bytes(bytes: &[u8]) -> (res: Result<WireRecord, WireError>)
        ensures
            bytes@.len() != 640 ==> res == Err::<WireRecord, WireError>(
                WireError::Length { expected: 640, actual: bytes@.len() as usize },
            ),
            bytes@.len() == 640 ==> forall|r: WireRecord| #[trigger] record_image(bytes@, r) ==>
                match record_check(r.header, r.payload_image()) {
                    Ok(_) => res == Ok::<WireRecord, WireError>(r),
                    Err(e) => res == Err::<WireRecord, WireError>(e),
                },
    {
        if bytes.len() != 640 {
            return Err(WireError::Length { expected: 640, actual: bytes.len() });
        }
        let header = read_header(bytes, 0);
        let payload: [u8; 544] = crate::codec::get_bytes(bytes, 64);
        let tail: [u8; 32] = crate::codec::get_bytes(bytes, 608);
        let rec = WireRecord { header, payload, tail };
        proof {
            assert forall|k: int| 0 <= k < 544 implies #[trigger] rec.payload@[k] == bytes@.subrange(64, 608)[k] by {
                assert(bytes@[64 + k] == rec.payload@[k]);
            }
            assert forall|k: int| 0 <= k < 32 implies #[trigger] rec.tail@[k] == bytes@.subrange(608, 640)[k] by {
                assert(bytes@[608 + k] == rec.tail@[k]);
            }
            assert(rec.payload@ =~= bytes@.subrange(64, 608));
            assert(rec.tail@ =~= bytes@.subrange(608, 640));
            assert forall|r: WireRecord| #[trigger] record_image(bytes@, r) implies r == rec by {
                lemma_record_image_unique(bytes@, r, rec);
            }
        }
        rec.validate()?;
        Ok(rec)
    }
}

/// Only one record has a given image.
pub proof fn lemma_record_image_unique(s: Seq<u8>, a: WireRecord, b: WireRecord)
    requires
        record_image(s, a),
        record_image(s, b),
    ensures
        a == b,
{
    crate::layout::lemma_header_unique(s, 0, a.header, b.header);
    assert(a.payload =~= b.payload);
    assert(a.tail =~= b.tail);
}

impl Default for WireRecord {
    fn default() -> (res: WireRecord)
        ensures
            is_zero_header(res.header),
            res.payload_image() == zeros(544),
            res.tail_image() == zeros(32),
    {
        WireRecord::zeroed()
    }
}

/// Checks the enumerated bytes of a quote payload.
fn validate_quote(q: &QuotePayload) -> (res: Result<(), WireError>)
    ensures
        res == quote_check(q.level_ext_kind, q.quote_ext_kind),
{
    if !(q.level_ext_kind == level_ext::NONE || q.level_ext_kind == level_ext::BOND_YIELD
        || q.level_ext_kind == level_ext::LP_QUANTITY) {
        return Err(WireError::LevelExtKind { found: q.level_ext_kind });
    }
    if q.quote_ext_kind == quote_ext::NONE || q.quote_ext_kind == quote_ext::LP_HOLDINGS
        || q.quote_ext_kind == quote_ext::SEQUENCE || q.quote_ext_kind == quote_ext::EXPECTED_PRICE {
        Ok(())
    } else {
        Err(WireError::QuoteExtKind { found: q.quote_ext_kind })
    }
}

/// Checks the enumerated byte of a trade payload.
fn validate_trade(t: &TradePayload) -> (res: Result<(), WireError>)
    ensures
        res == trade_check(t.trade_kind),
{
    if t.trade_kind == trade_kind::NONE || t.trade_kind == trade_kind::SELL
        || t.trade_kind == trade_kind::BUY || t.trade_kind == trade_kind::UNKNOWN {
        Ok(())
    } else {
        Err(WireError::TradeKind { found: t.trade_kind })
    }
}

/// Writes a `QuotePayload` at the start of a zeroed payload area.
fn write_quote_into(buf: &mut [u8; 544], p: &QuotePayload)
    requires
        old(buf)@ == zeros(544),
    ensures
        quote_at(final(buf)@, 0, *p),
        zero_from(final(buf)@, 496),
{
    write_quote(buf, 0, p);
}

/// Writes a `TradePayload` at the start of a zeroed payload area.
fn write_trade_into(buf: &mut [u8; 544], p: &TradePayload)
    requires
        old(buf)@ == zeros(544),
    ensures
        trade_at(final(buf)@, 0, *p),
        zero_from(final(buf)@, 48),
{
    write_trade(buf, 0, p);
}

/// Writes a `TradeQuotePayload` at the start of a zeroed payload area.
fn write_trade_quote_into(buf: &mut [u8; 544], p: &TradeQuotePayload)
    requires
        old(buf)@ == zeros(544),
    ensures
        trade_quote_at(final(buf)@, 0, *p),
        zero_from(final(buf)@, 544),
{
    write_trade_quote(buf, 0, p);
}

/// Writes a `OpenInterestPayload` at the start of a zeroed payload area.
fn write_open_interest_into(buf: &mut [u8; 544], p: &OpenInterestPayload)
    requires
        old(buf)@ == zeros(544),
    ensures
        open_interest_at(final(buf)@, 0, *p),
        zero_from(final(buf)@, 8),
{
    write_open_interest(buf, 0, p);
}

/// Writes a `InvestorStatsPayload` at the start of a zeroed payload area.
fn write_investor_stats_into(buf: &mut [u8; 544], p: &InvestorStatsPayload)
    requires
        old(buf)@ == zeros(544),
    ensures
        investor_stats_at(final(buf)@, 0, *p),
        zero_from(final(buf)@, 48),
{
    write_investor_stats(buf, 0, p);
}

/// Writes a `SnapshotDeltaPayload` at the start of a zeroed payload area.
fn write_snapshot_delta_into(buf: &mut [u8; 544], p: &SnapshotDeltaPayload)
    requires
        old(buf)@ == zeros(544),
    ensures
        snapshot_delta_at(final(buf)@, 0, *p),
        zero_from(final(buf)@, 544),
{
    write_snapshot_delta(buf, 0, p);
}

/// Writes a `PriceLimitPayload` at the start of a zeroed payload area.
fn write_price_limit_into(buf: &mut [u8; 544], p: &PriceLimitPayload)
    requires
        old(buf)@ == zeros(544),
    ensures
        price_limit_at(final(buf)@, 0, *p),
        zero_from(final(buf)@, 40),
{
    write_price_limit(buf, 0, p);
}

/// Writes a `MarketSchedulePayload` at the start of a zeroed payload area.
fn write_market_schedule_into(buf: &mut [u8; 544], p: &MarketSchedulePayload)
    requires
        old(buf)@ == zeros(544),
    ensures
        market_schedule_at(final(buf)@, 0, *p),
        zero_from(final(buf)@, 72),
{
    write_market_schedule(buf, 0, p);
}

/// Writes a `DynamicPriceLimitPayload` at the start of a zeroed payload area.
fn write_dynamic_price_limit_into(buf: &mut [u8; 544], p: &DynamicPriceLimitPayload)
    requires
        old(buf)@ == zeros(544),
    ensures
        dynamic_price_limit_at(final(buf)@, 0, *p),
        zero_from(final(buf)@, 40),
{
    write_dynamic_price_limit(buf, 0, p);
}

/// Writes a `HeartbeatPayload` at the start of a zeroed payload area.
fn write_heartbeat_into(buf: &mut [u8; 544], p: &HeartbeatPayload)
    requires
        old(buf)@ == zeros(544),
    ensures
        heartbeat_at(final(buf)@, 0, *p),
        zero_from(final(buf)@, 16),
{
    write_heartbeat(buf, 0, p);
}


/// A payload installed as [`WireKind::Quote`] is what the `quote` view gives
/// back: `set_quote(p)` leaves a record `r` on which `quote()` returns `Ok(p)`.
pub proof fn law_quote_read_back(r: WireRecord, p: QuotePayload, res: Result<QuotePayload, WireError>)
    requires
        r.header.kind == kind_byte(WireKind::Quote),
        quote_at(r.payload_image(), 0, p),
        match kind_gate(r.header.kind, WireKind::Quote) {
            Err(e) => res == Err::<QuotePayload, WireError>(e),
            Ok(_) => res matches Ok(q) && quote_at(r.payload_image(), 0, q),
        },
    ensures
        res == Ok::<QuotePayload, WireError>(p),
{
    if let Ok(q) = res {
        crate::layout::lemma_quote_unique(r.payload_image(), 0, p, q);
    }
}

/// A payload installed as [`WireKind::Trade`] is what the `trade` view gives
/// back: `set_trade(p)` leaves a record `r` on which `trade()` returns `Ok(p)`.
pub proof fn law_trade_read_back(r: WireRecord, p: TradePayload, res: Result<TradePayload, WireError>)
    requires
        r.header.kind == kind_byte(WireKind::Trade),
        trade_at(r.payload_image(), 0, p),
        match kind_gate(r.header.kind, WireKind::Trade) {
            Err(e) => res == Err::<TradePayload, WireError>(e),
            Ok(_) => res matches Ok(q) && trade_at(r.payload_image(), 0, q),
        },
    ensures
        res == Ok::<TradePayload, WireError>(p),
{
    if let Ok(q) = res {
        crate::layout::lemma_trade_unique(r.payload_image(), 0, p, q);
    }
}

/// A payload installed as [`WireKind::TradeQuote`] is what the `trade_quote` view gives
/// back: `set_trade_quote(p)` leaves a record `r` on which `trade_quote()` returns `Ok(p)`.
pub proof fn law_trade_quote_read_back(r: WireRecord, p: TradeQuotePayload, res: Result<TradeQuotePayload, WireError>)
    requires
        r.header.kind == kind_byte(WireKind::TradeQuote),
        trade_quote_at(r.payload_image(), 0, p),
        match kind_gate(r.header.kind, WireKind::TradeQuote) {
            Err(e) => res == Err::<TradeQuotePayload, WireError>(e),
            Ok(_) => res matches Ok(q) && trade_quote_at(r.payload_image(), 0, q),
        },
    ensures
        res == Ok::<TradeQuotePayload, WireError>(p),
{
    if let Ok(q) = res {
        crate::layout::lemma_trade_quote_unique(r.payload_image(), 0, p, q);
    }
}

/// A payload installed as [`WireKind::OpenInterest`] is what the `open_interest` view gives
/// back: `set_open_interest(p)` leaves a record `r` on which `open_interest()` returns `Ok(p)`.
pub proof fn law_open_interest_read_back(r: WireRecord, p: OpenInterestPayload, res: Result<OpenInterestPayload, WireError>)
    requires
        r.header.kind == kind_byte(WireKind::OpenInterest),
        open_interest_at(r.payload_image(), 0, p),
        match kind_gate(r.header.kind, WireKind::OpenInterest) {
            Err(e) => res == Err::<OpenInterestPayload, WireError>(e),
            Ok(_) => res matches Ok(q) && open_interest_at(r.payload_image(), 0, q),
        },
    ensures
        res == Ok::<OpenInterestPayload, WireError>(p),
{
    if let Ok(q) = res {
        crate::layout::lemma_open_interest_unique(r.payload_image(), 0, p, q);
    }
}

/// A payload installed as [`WireKind::InvestorStats`] is what the `investor_stats` view gives
/// back: `set_investor_stats(p)` leaves a record `r` on which `investor_stats()` returns `Ok(p)`.
pub proof fn law_investor_stats_read_back(r: WireRecord, p: InvestorStatsPayload, res: Result<InvestorStatsPayload, WireError>)
    requires
        r.header.kind == kind_byte(WireKind::InvestorStats),
        investor_stats_at(r.payload_image(), 0, p),
        match kind_gate(r.header.kind, WireKind::InvestorStats) {
            Err(e) => res == Err::<InvestorStatsPayload, WireError>(e),
            Ok(_) => res matches Ok(q) && investor_stats_at(r.payload_image(), 0, q),
        },
    ensures
        res == Ok::<InvestorStatsPayload, WireError>(p),
{
    if let Ok(q) = res {
        crate::layout::lemma_investor_stats_unique(r.payload_image(), 0, p, q);
    }
}

/// A payload installed as [`WireKind::SnapshotDelta`] is what the `snapshot_delta` view gives
/// back: `set_snapshot_delta(p)` leaves a record `r` on which `snapshot_delta()` returns `Ok(p)`.
pub proof fn law_snapshot_delta_read_back(r: WireRecord, p: SnapshotDeltaPayload, res: Result<SnapshotDeltaPayload, WireError>)
    requires
        r.header.kind == kind_byte(WireKind::SnapshotDelta),
        snapshot_delta_at(r.payload_image(), 0, p),
        match kind_gate(r.header.kind, WireKind::SnapshotDelta) {
            Err(e) => res == Err::<SnapshotDeltaPayload, WireError>(e),
            Ok(_) => res matches Ok(q) && snapshot_delta_at(r.payload_image(), 0, q),
        },
    ensures
        res == Ok::<SnapshotDeltaPayload, WireError>(p),
{
    if let Ok(q) = res {
        crate::layout::lemma_snapshot_delta_unique(r.payload_image(), 0, p, q);
    }
}

/// A payload installed as [`WireKind::PriceLimit`] is what the `price_limit` view gives
/// back: `set_price_limit(p)` leaves a record `r` on which `price_limit()` returns `Ok(p)`.
pub proof fn law_price_limit_read_back(r: WireRecord, p: PriceLimitPayload, res: Result<PriceLimitPayload, WireError>)
    requires
        r.header.kind == kind_byte(WireKind::PriceLimit),
        price_limit_at(r.payload_image(), 0, p),
        match kind_gate(r.header.kind, WireKind::PriceLimit) {
            Err(e) => res == Err::<PriceLimitPayload, WireError>(e),
            Ok(_) => res matches Ok(q) && price_limit_at(r.payload_image(), 0, q),
        },
    ensures
        res == Ok::<PriceLimitPayload, WireError>(p),
{
    if let Ok(q) = res {
        crate::layout::lemma_price_limit_unique(r.payload_image(), 0, p, q);
    }
}

/// A payload installed as [`WireKind::MarketSchedule`] is what the `market_schedule` view gives
/// back: `set_market_schedule(p)` leaves a record `r` on which `market_schedule()` returns `Ok(p)`.
pub proof fn law_market_schedule_read_back(r: WireRecord, p: MarketSchedulePayload, res: Result<MarketSchedulePayload, WireError>)
    requires
        r.header.kind == kind_byte(WireKind::MarketSchedule),
        market_schedule_at(r.payload_image(), 0, p),
        match kind_gate(r.header.kind, WireKind::MarketSchedule) {
            Err(e) => res == Err::<MarketSchedulePayload, WireError>(e),
            Ok(_) => res matches Ok(q) && market_schedule_at(r.payload_image(), 0, q),
        },
    ensures
        res == Ok::<MarketSchedulePayload, WireError>(p),
{
    if let Ok(q) = res {
        crate::layout::lemma_market_schedule_unique(r.payload_image(), 0, p, q);
    }
}

/// A payload installed as [`WireKind::DynamicPriceLimit`] is what the `dynamic_price_limit` view gives
/// back: `set_dynamic_price_limit(p)` leaves a record `r` on which `dynamic_price_limit()` returns `Ok(p)`.
pub proof fn law_dynamic_price_limit_read_back(r: WireRecord, p: DynamicPriceLimitPayload, res: Result<DynamicPriceLimitPayload, WireError>)
    requires
        r.header.kind == kind_byte(WireKind::DynamicPriceLimit),
        dynamic_price_limit_at(r.payload_image(), 0, p),
        match kind_gate(r.header.kind, WireKind::DynamicPriceLimit) {
            Err(e) => res == Err::<DynamicPriceLimitPayload, WireError>(e),
            Ok(_) => res matches Ok(q) && dynamic_price_limit_at(r.payload_image(), 0, q),
        },
    ensures
        res == Ok::<DynamicPriceLimitPayload, WireError>(p),
{
    if let Ok(q) = res {
        crate::layout::lemma_dynamic_price_limit_unique(r.payload_image(), 0, p, q);
    }
}

/// A payload installed as [`WireKind::Heartbeat`] is what the `heartbeat` view gives
/// back: `set_heartbeat(p)` leaves a record `r` on which `heartbeat()` returns `Ok(p)`.
pub proof fn law_heartbeat_read_back(r: WireRecord, p: HeartbeatPayload, res: Result<HeartbeatPayload, WireError>)
    requires
        r.header.kind == kind_byte(WireKind::Heartbeat),
        heartbeat_at(r.payload_image(), 0, p),
        match kind_gate(r.header.kind, WireKind::Heartbeat) {
            Err(e) => res == Err::<HeartbeatPayload, WireError>(e),
            Ok(_) => res matches Ok(q) && heartbeat_at(r.payload_image(), 0, q),
        },
    ensures
        res == Ok::<HeartbeatPayload, WireError>(p),
{
    if let Ok(q) = res {
        crate::layout::lemma_heartbeat_unique(r.payload_image(), 0, p, q);
    }
}

/// A record's bytes read back as the record: when `as_bytes(r)` gave `s`
/// and `from_bytes(s)` gave `res`, `res` is `Ok(r)` exactly when `r`
/// validates, and otherwise the error validation names.
pub proof fn law_bytes_round_trip(r: WireRecord, s: Seq<u8>, res: Result<WireRecord, WireError>)
    requires
        record_image(s, r),
        s.len() == 640 ==> forall|x: WireRecord| #[trigger] record_image(s, x) ==>
            match record_check(x.header, x.payload_image()) {
                Ok(_) => res == Ok::<WireRecord, WireError>(x),
                Err(e) => res == Err::<WireRecord, WireError>(e),
            },
    ensures
        match record_check(r.header, r.payload_image()) {
            Ok(_) => res == Ok::<WireRecord, WireError>(r),
            Err(e) => res == Err::<WireRecord, WireError>(e),
        },
{
    assert(record_image(s, r));
}

/// A typed view of a record of another kind is refused with both kinds
/// named, never a reinterpretation.
pub proof fn law_kind_gate(b: u8, expected: WireKind, found: WireKind)
    requires
        b == kind_byte(found),
        found != expected,
    ensures
        kind_gate(b, expected) == Err::<(), WireError>(WireError::KindMismatch { expected, found }),
{
}

// ---------------------------------------------------------------------------
// The image as a consumer reads it
// ---------------------------------------------------------------------------

proof fn lemma_image_fields(img: Seq<u8>, rec: WireRecord, o: int)
    requires
        record_image(img, rec),
        0 <= o,
    ensures
        forall|x: u64| o + 8 <= 544 && holds_u64(rec.payload_image(), o, x) ==> #[trigger] holds_u64(img, 64 + o, x),
        forall|x: u32| o + 4 <= 544 && holds_u32(rec.payload_image(), o, x) ==> #[trigger] holds_u32(img, 64 + o, x),
        forall|x: u8| o + 1 <= 544 && holds_u8(rec.payload_image(), o, x) ==> #[trigger] holds_u8(img, 64 + o, x),
{
    let p = rec.payload_image();
    if o + 8 <= 544 {
        assert(p[o] == img[64 + o] && p[o + 1] == img[64 + o + 1] && p[o + 2] == img[64 + o + 2] && p[o + 3]
            == img[64 + o + 3]);
        assert(p[o + 4] == img[64 + o + 4] && p[o + 5] == img[64 + o + 5] && p[o + 6] == img[64 + o + 6] && p[o + 7]
            == img[64 + o + 7]);
    }
    if o + 4 <= 544 {
        assert(p[o] == img[64 + o] && p[o + 1] == img[64 + o + 1] && p[o + 2] == img[64 + o + 2] && p[o + 3]
            == img[64 + o + 3]);
    }
    if o + 1 <= 544 {
        assert(p[o] == img[64 + o]);
    }
}

/// A trade record's 640-byte image carries the trade where the wire ABI
/// puts it, after the 64-byte header and independently of who wrote it:
/// price (i64) at byte 64, quantity at 72, cumulative quantity at 80, the
/// dynamic upper and lower limits (i64) at 88 and 96, the yield (i32) at
/// 104, the aggressor byte at 108 and the flag byte at 109, each
/// little-endian.
pub proof fn law_trade_image(rec: WireRecord, t: TradePayload, img: Seq<u8>)
    requires
        trade_at(rec.payload_image(), 0, t),
        record_image(img, rec),
    ensures
        holds_i64(img, 64, t.price),
        holds_u64(img, 72, t.qty),
        holds_u64(img, 80, t.cumulative_qty),
        holds_i64(img, 88, t.dyn_upper),
        holds_i64(img, 96, t.dyn_lower),
        holds_i32(img, 104, t.trade_yield),
        img[108] == t.trade_kind,
        img[109] == t.trade_flags,
{
    assert(rec.payload_image().len() == 544);
    lemma_image_fields(img, rec, 0);
    lemma_image_fields(img, rec, 8);
    lemma_image_fields(img, rec, 16);
    lemma_image_fields(img, rec, 24);
    lemma_image_fields(img, rec, 32);
    lemma_image_fields(img, rec, 40);
    lemma_image_fields(img, rec, 44);
    lemma_image_fields(img, rec, 45);
    assert(holds_u64(img, 64, t.price as u64));
    assert(holds_u64(img, 72, t.qty));
    assert(holds_u64(img, 80, t.cumulative_qty));
    assert(holds_u64(img, 88, t.dyn_upper as u64));
    assert(holds_u64(img, 96, t.dyn_lower as u64));
    assert(holds_u32(img, 104, t.trade_yield as u32));
    assert(holds_u8(img, 108, t.trade_kind));
    assert(holds_u8(img, 109, t.trade_flags));
}

/// A price-limit record's image carries the limits where the wire ABI puts
/// them: the applied time of day at byte 64, the upper limit (i64) at 72,
/// the lower limit (i64) at 80, the sequence (u32) at 88, and the upper and
/// lower stage bytes at 97 and 98, each little-endian.
pub proof fn law_price_limit_image(rec: WireRecord, p: PriceLimitPayload, img: Seq<u8>)
    requires
        price_limit_at(rec.payload_image(), 0, p),
        record_image(img, rec),
    ensures
        holds_u64(img, 64, p.applied_time_of_day),
        holds_i64(img, 72, p.upper_price),
        holds_i64(img, 80, p.lower_price),
        holds_u32(img, 88, p.sequence),
        img[97] == p.upper_stage,
        img[98] == p.lower_stage,
{
    assert(rec.payload_image().len() == 544);
    lemma_image_fields(img, rec, 0);
    lemma_image_fields(img, rec, 8);
    lemma_image_fields(img, rec, 16);
    lemma_image_fields(img, rec, 24);
    lemma_image_fields(img, rec, 33);
    lemma_image_fields(img, rec, 34);
    assert(holds_u64(img, 64, p.applied_time_of_day));
    assert(holds_u64(img, 72, p.upper_price as u64));
    assert(holds_u64(img, 80, p.lower_price as u64));
    assert(holds_u32(img, 88, p.sequence));
    assert(holds_u8(img, 97, p.upper_stage));
    assert(holds_u8(img, 98, p.lower_stage));
}

/// A quote record's image carries the book where the wire ABI puts it: the
/// ten ask levels from byte 64 and the ten bid levels from byte 304, 24
/// bytes a level, each level its price (i64), quantity (u64) and order count
/// (u32) in that order, little-endian.
pub proof fn law_quote_image(rec: WireRecord, q: QuotePayload, img: Seq<u8>)
    requires
        quote_at(rec.payload_image(), 0, q),
        record_image(img, rec),
    ensures
        q.ask@.len() == 10,
        q.bid@.len() == 10,
        forall|l: int|
            0 <= l < 10 ==> holds_i64(img, 64 + 24 * l, #[trigger] q.ask@[l].price) && holds_u64(
                img,
                72 + 24 * l,
                q.ask@[l].qty,
            ) && holds_u32(img, 80 + 24 * l, q.ask@[l].order_count),
        forall|l: int|
            0 <= l < 10 ==> holds_i64(img, 304 + 24 * l, #[trigger] q.bid@[l].price) && holds_u64(
                img,
                312 + 24 * l,
                q.bid@[l].qty,
            ) && holds_u32(img, 320 + 24 * l, q.bid@[l].order_count),
{
    assert(rec.payload_image().len() == 544);
    assert forall|l: int| 0 <= l < 10 implies holds_i64(img, 64 + 24 * l, #[trigger] q.ask@[l].price) && holds_u64(
        img,
        72 + 24 * l,
        q.ask@[l].qty,
    ) && holds_u32(img, 80 + 24 * l, q.ask@[l].order_count) by {
        assert(level_at(rec.payload_image(), 0 + 24 * l, q.ask@[l]));
        lemma_image_fields(img, rec, 24 * l);
        lemma_image_fields(img, rec, 24 * l + 8);
        lemma_image_fields(img, rec, 24 * l + 16);
        assert(holds_u64(img, 64 + 24 * l, q.ask@[l].price as u64));
        assert(holds_u64(img, 64 + (24 * l + 8), q.ask@[l].qty));
        assert(holds_u32(img, 64 + (24 * l + 16), q.ask@[l].order_count));
    }
    assert forall|l: int| 0 <= l < 10 implies holds_i64(img, 304 + 24 * l, #[trigger] q.bid@[l].price) && holds_u64(
        img,
        312 + 24 * l,
        q.bid@[l].qty,
    ) && holds_u32(img, 320 + 24 * l, q.bid@[l].order_count) by {
        assert(level_at(rec.payload_image(), 0 + 240 + 24 * l, q.bid@[l]));
        lemma_image_fields(img, rec, 240 + 24 * l);
        lemma_image_fields(img, rec, 240 + 24 * l + 8);
        lemma_image_fields(img, rec, 240 + 24 * l + 16);
        assert(holds_u64(img, 64 + (240 + 24 * l), q.bid@[l].price as u64));
        assert(holds_u64(img, 64 + (240 + 24 * l + 8), q.bid@[l].qty));
        assert(holds_u32(img, 64 + (240 + 24 * l + 16), q.bid@[l].order_count));
    }
}

/// A trade's aggressor byte is accepted exactly when it is one of the four
/// aggressor encodings, none, sell, buy or unknown; any other byte is
/// refused naming it. So for a trade record whose header passes, and for
/// the trade half of a trade-and-quote record.
pub proof fn law_trade_aggressor(h: RecordHeader, p: Seq<u8>)
    requires
        header_check(h) is Ok,
        p.len() == 544,
    ensures
        h.kind == kind_byte(WireKind::Trade) ==> record_check(h, p) == (if p[44] == trade_kind::NONE || p[44]
            == trade_kind::SELL || p[44] == trade_kind::BUY || p[44] == trade_kind::UNKNOWN {
            Ok::<(), WireError>(())
        } else {
            Err(WireError::TradeKind { found: p[44] })
        }),
        h.kind == kind_byte(WireKind::TradeQuote) && !(p[44] == trade_kind::NONE || p[44] == trade_kind::SELL || p[44]
            == trade_kind::BUY || p[44] == trade_kind::UNKNOWN) ==> record_check(h, p) == Err::<(), WireError>(
            WireError::TradeKind { found: p[44] },
        ),
{
    law_kind_byte_round_trip(WireKind::Trade, 0);
    law_kind_byte_round_trip(WireKind::TradeQuote, 0);
}

/// A quote's two encoding bytes are accepted exactly when each is one of
/// its encodings: the level extension none, bond yield or LP quantity, and
/// the quote extension none, LP holdings, sequence or expected price; the
/// first byte that is not is refused naming it.
pub proof fn law_quote_encodings(h: RecordHeader, p: Seq<u8>)
    requires
        header_check(h) is Ok,
        h.kind == kind_byte(WireKind::Quote),
        p.len() == 544,
    ensures
        record_check(h, p) == (if !(p[488] == level_ext::NONE || p[488] == level_ext::BOND_YIELD || p[488]
            == level_ext::LP_QUANTITY) {
            Err(WireError::LevelExtKind { found: p[488] })
        } else if !(p[489] == quote_ext::NONE || p[489] == quote_ext::LP_HOLDINGS || p[489] == quote_ext::SEQUENCE
            || p[489] == quote_ext::EXPECTED_PRICE) {
            Err(WireError::QuoteExtKind { found: p[489] })
        } else {
            Ok::<(), WireError>(())
        }),
{
    law_kind_byte_round_trip(WireKind::Quote, 0);
}

/// A record's image opens with its header where the wire ABI puts it:
/// kind, venue, flags, depth, price scale and quantity scale in bytes 0 to
/// 5, the producer sequence at 8, the reception time at 16, the venue time
/// at 24 and the 24-byte symbol from 32, each little-endian.
pub proof fn law_header_image(rec: WireRecord, img: Seq<u8>)
    requires
        record_image(img, rec),
    ensures
        img[0] == rec.header.kind,
        img[1] == rec.header.venue,
        img[2] == rec.header.flags,
        img[3] == rec.header.depth,
        img[4] == rec.header.price_scale,
        img[5] == rec.header.qty_scale,
        holds_u64(img, 8, rec.header.producer_seq),
        holds_u64(img, 16, rec.header.recv_ns),
        holds_u64(img, 24, rec.header.venue_ns),
        img.subrange(32, 56) == rec.header.symbol@,
{
    assert(rec.header.symbol@.len() == 24);
    assert forall|k: int| 0 <= k < 24 implies #[trigger] img.subrange(32, 56)[k] == rec.header.symbol@[k] by {
        assert(img[32 + k] == rec.header.symbol@[k]);
    }
    assert(img.subrange(32, 56) =~= rec.header.symbol@);
}

/// A dynamic-price-limit record's image carries the limits where the wire
/// ABI puts them: applied time of day at byte 64, upper limit (i64) at 72,
/// lower limit (i64) at 80, sequence (u32) at 88 and the action byte at 97.
pub proof fn law_dynamic_price_limit_image(rec: WireRecord, p: DynamicPriceLimitPayload, img: Seq<u8>)
    requires
        dynamic_price_limit_at(rec.payload_image(), 0, p),
        record_image(img, rec),
    ensures
        holds_u64(img, 64, p.applied_time_of_day),
        holds_i64(img, 72, p.upper_price),
        holds_i64(img, 80, p.lower_price),
        holds_u32(img, 88, p.sequence),
        img[97] == p.action,
{
    assert(rec.payload_image().len() == 544);
    lemma_image_fields(img, rec, 0);
    lemma_image_fields(img, rec, 8);
    lemma_image_fields(img, rec, 16);
    lemma_image_fields(img, rec, 24);
    lemma_image_fields(img, rec, 33);
    assert(holds_u64(img, 64, p.applied_time_of_day));
    assert(holds_u64(img, 72, p.upper_price as u64));
    assert(holds_u64(img, 80, p.lower_price as u64));
    assert(holds_u32(img, 88, p.sequence));
    assert(holds_u8(img, 97, p.action));
}

/// A market-schedule record's image carries the notice where the wire ABI
/// puts it: event and expected times of day at bytes 64 and 72, the board
/// event group (u32) at 80, then halt type, step, expansion direction and
/// flag bytes at 125 to 128.
pub proof fn law_schedule_image(rec: WireRecord, m: MarketSchedulePayload, img: Seq<u8>)
    requires
        market_schedule_at(rec.payload_image(), 0, m),
        record_image(img, rec),
    ensures
        holds_u64(img, 64, m.event_time_of_day),
        holds_u64(img, 72, m.expected_time_of_day),
        holds_u32(img, 80, m.board_event_group),
        img[125] == m.halt_type,
        img[126] == m.step,
        img[127] == m.expansion_direction,
        img[128] == m.schedule_flags,
{
    assert(rec.payload_image().len() == 544);
    lemma_image_fields(img, rec, 0);
    lemma_image_fields(img, rec, 8);
    lemma_image_fields(img, rec, 16);
    lemma_image_fields(img, rec, 61);
    lemma_image_fields(img, rec, 62);
    lemma_image_fields(img, rec, 63);
    lemma_image_fields(img, rec, 64);
    assert(holds_u64(img, 64, m.event_time_of_day));
    assert(holds_u64(img, 72, m.expected_time_of_day));
    assert(holds_u32(img, 80, m.board_event_group));
    assert(holds_u8(img, 125, m.halt_type));
    assert(holds_u8(img, 126, m.step));
    assert(holds_u8(img, 127, m.expansion_direction));
    assert(holds_u8(img, 128, m.schedule_flags));
}

/// The small payloads sit where the wire ABI puts them: open interest at
/// byte 64; investor statistics' buy and sell quantities and values at 64,
/// 72, 80 and 88; a heartbeat's received and forwarded counts at 64 and 72.
pub proof fn law_small_payload_images(
    rec: WireRecord,
    oi: OpenInterestPayload,
    st: InvestorStatsPayload,
    hb: HeartbeatPayload,
    img: Seq<u8>,
)
    requires
        record_image(img, rec),
    ensures
        open_interest_at(rec.payload_image(), 0, oi) ==> holds_u64(img, 64, oi.open_interest),
        investor_stats_at(rec.payload_image(), 0, st) ==> holds_u64(img, 64, st.buy_qty) && holds_u64(img, 72, st.sell_qty)
            && holds_u64(img, 80, st.buy_value) && holds_u64(img, 88, st.sell_value),
        heartbeat_at(rec.payload_image(), 0, hb) ==> holds_u64(img, 64, hb.received) && holds_u64(img, 72, hb.forwarded),
{
    assert(rec.payload_image().len() == 544);
    lemma_image_fields(img, rec, 0);
    lemma_image_fields(img, rec, 8);
    lemma_image_fields(img, rec, 16);
    lemma_image_fields(img, rec, 24);
    assert(forall|x: u64| holds_u64(rec.payload_image(), 0, x) ==> holds_u64(img, 64, x));
    assert(forall|x: u64| holds_u64(rec.payload_image(), 8, x) ==> holds_u64(img, 72, x));
    assert(forall|x: u64| holds_u64(rec.payload_image(), 16, x) ==> holds_u64(img, 80, x));
    assert(forall|x: u64| holds_u64(rec.payload_image(), 24, x) ==> holds_u64(img, 88, x));
}

/// A snapshot delta's image carries its two update ids at bytes 64 and 72,
/// its 32 changed levels from byte 80, 16 bytes each (price, then
/// quantity), and its bid and ask counts at bytes 592 and 593.
pub proof fn law_snapshot_delta_image(rec: WireRecord, d: SnapshotDeltaPayload, img: Seq<u8>)
    requires
        snapshot_delta_at(rec.payload_image(), 0, d),
        record_image(img, rec),
    ensures
        holds_u64(img, 64, d.first_update_id),
        holds_u64(img, 72, d.final_update_id),
        forall|i: int| 0 <= i < 32 ==> holds_i64(img, 80 + 16 * i, #[trigger] d.levels@[i].price) && holds_u64(
            img,
            88 + 16 * i,
            d.levels@[i].qty,
        ),
        img[592] == d.bid_count,
        img[593] == d.ask_count,
{
    assert(rec.payload_image().len() == 544);
    lemma_image_fields(img, rec, 0);
    lemma_image_fields(img, rec, 8);
    lemma_image_fields(img, rec, 528);
    lemma_image_fields(img, rec, 529);
    assert(holds_u64(img, 64, d.first_update_id));
    assert(holds_u64(img, 72, d.final_update_id));
    assert(holds_u8(img, 592, d.bid_count));
    assert(holds_u8(img, 593, d.ask_count));
    assert forall|i: int| 0 <= i < 32 implies holds_i64(img, 80 + 16 * i, #[trigger] d.levels@[i].price) && holds_u64(
        img,
        88 + 16 * i,
        d.levels@[i].qty,
    ) by {
        assert(delta_level_at(rec.payload_image(), 0 + 16 + 16 * i, d.levels@[i]));
        lemma_image_fields(img, rec, 16 + 16 * i);
        lemma_image_fields(img, rec, 16 + 16 * i + 8);
        assert(holds_u64(img, 64 + (16 + 16 * i), d.levels@[i].price as u64));
        assert(holds_u64(img, 64 + (16 + 16 * i + 8), d.levels@[i].qty));
    }
}

/// The other enumerated payload bytes are accepted exactly when they are
/// one of their encodings: a dynamic limit's action unknown, applied or
/// released; a schedule's expansion direction not applicable, up or down;
/// a snapshot delta's bid and ask counts at most 32 levels together.
pub proof fn law_other_encodings(h: RecordHeader, p: Seq<u8>)
    requires
        header_check(h) is Ok,
        p.len() == 544,
    ensures
        h.kind == kind_byte(WireKind::DynamicPriceLimit) ==> record_check(h, p) == (if p[33] == dyn_limit_action::UNKNOWN
            || p[33] == dyn_limit_action::APPLIED || p[33] == dyn_limit_action::RELEASED {
            Ok::<(), WireError>(())
        } else {
            Err(WireError::DynLimitAction { found: p[33] })
        }),
        h.kind == kind_byte(WireKind::MarketSchedule) ==> record_check(h, p) == (if p[63]
            == expansion_direction::NOT_APPLICABLE || p[63] == expansion_direction::UP || p[63]
            == expansion_direction::DOWN {
            Ok::<(), WireError>(())
        } else {
            Err(WireError::ExpansionDirection { found: p[63] })
        }),
        h.kind == kind_byte(WireKind::SnapshotDelta) ==> record_check(h, p) == (if p[528] + p[529] <= 32 {
            Ok::<(), WireError>(())
        } else {
            Err(WireError::DeltaLevelCount { bid: p[528], ask: p[529], max: 32 })
        }),
{
    law_kind_byte_round_trip(WireKind::DynamicPriceLimit, 0);
    law_kind_byte_round_trip(WireKind::MarketSchedule, 0);
    law_kind_byte_round_trip(WireKind::SnapshotDelta, 0);
}

} // verus!
