//! Decoding the blockchain subscription's raw fill logs.
//!
//! A log notification carries hex topics and hex data. Reorged logs
//! (`removed`) are skipped outright; the rest decode into a live trade and
//! its raw cash size, enriched from the market cache.

use vstd::prelude::*;

use crate::assoc::AssocMap;
use crate::digest::{cache_key, digest_of, chars_to_string, str_to_chars};
use crate::fills::{side_label, Side};
use crate::hexstr::{all_hex, hex_bytes_of, decode_hex_chars, parse_hex_capped, hex_num_val};
use crate::market::MarketInfo;
use crate::money::{
    format_usdc_raw, price_micro, price_micro_of, usdc_display_of_raw, PRICE_USDC_CAP,
};
use crate::numstr::dec_of;
use crate::text::{lower_of, strip_0x, strip_0x_prefix};
use crate::fills::{exchange_label_of, exchange_of_contract, Alert, LiveTrade};

verus! {

/// Value of big-endian bytes.
pub open spec fn be_bytes_val(b: Seq<u8>) -> nat
    decreases b.len(),
{
    if b.len() == 0 {
        0
    } else {
        be_bytes_val(b.drop_last()) * 256 + b.last() as nat
    }
}

pub open spec fn all_zero(b: Seq<u8>) -> bool {
    forall|j: int| 0 <= j < b.len() ==> b[j] == 0
}

/// What the outside 256-bit integer type renders for big-endian bytes: their
/// value in decimal.
/// Relies on `alloy_primitives::U256::from_be_bytes` and its decimal
/// `Display`: the digits of the value, no leading zeros, `0` for zero.
#[verifier::external_body]
pub fn u256_dec_string(b: &Vec<u8>) -> (r: String)
    requires
        b@.len() == 32,
    ensures
        r@ == dec_of(be_bytes_val(b@)),
{
    let mut arr = [0u8; 32];
    arr.copy_from_slice(&b[..]);
    alloy_primitives::U256::from_be_bytes(arr).to_string()
}

/// One raw log notification from the subscription.
pub struct WsLog {
    pub topics: Vec<String>,
    pub data: String,
    pub transaction_hash: String,
    /// Hex block number.
    pub block_number: String,
    /// True when the log was removed by a chain reorganization.
    pub removed: bool,
}

/// A topic normalized to its 64 hex digits, or `None` when malformed.
pub open spec fn norm_topic(s: Seq<char>) -> Option<Seq<char>> {
    let d = strip_0x(s);
    if d.len() == 64 && all_hex(d) {
        Some(d)
    } else {
        None
    }
}

/// The well-formed topics of a log, in order, malformed ones dropped.
pub open spec fn valid_topics(topics: Seq<Seq<char>>) -> Seq<Seq<char>>
    decreases topics.len(),
{
    if topics.len() == 0 {
        Seq::empty()
    } else {
        let rest = valid_topics(topics.drop_last());
        match norm_topic(topics.last()) {
            Some(d) => rest.push(d),
            None => rest,
        }
    }
}

/// The 160 data bytes of a fill log, or `None` when the data is not
/// well-formed hex of exactly five words.
pub open spec fn fill_words_of(log: WsLog) -> Option<Seq<u8>> {
    match hex_bytes_of(strip_0x(log.data@)) {
        Some(b) => if b.len() == 160 {
            Some(b)
        } else {
            None
        },
        None => None,
    }
}

/// A 32-byte word read as an amount: its low sixteen bytes, provided the
/// high sixteen are zero.
pub open spec fn word_amount(w: Seq<u8>) -> Option<nat> {
    if all_zero(w.subrange(0, 16)) {
        Some(be_bytes_val(w.subrange(16, 32)))
    } else {
        None
    }
}

/// Everything a fill log decodes to, before enrichment.
pub struct DecodedFill {
    pub side: Side,
    /// Decimal string of the traded asset's 256-bit identifier.
    pub asset_dec: String,
    pub usdc_raw: u128,
    pub token_raw: u128,
    /// Lowercased maker address, `0x`-prefixed.
    pub maker: String,
    pub block_number: u64,
}

/// The decode a fill log admits: its side, asset word, amounts and maker.
pub open spec fn ws_fill_of(log: WsLog) -> Option<(Side, Seq<u8>, nat, nat, Seq<char>)> {
    let vt = valid_topics(log.topics.deep_view());
    match fill_words_of(log) {
        None => None,
        Some(d) => if vt.len() < 4 {
            None
        } else {
            let makerw = d.subrange(0, 32);
            let takerw = d.subrange(32, 64);
            let maker_amt = d.subrange(64, 96);
            let taker_amt = d.subrange(96, 128);
            let maker_addr = seq!['0', 'x'] + lower_of(vt[2].subrange(24, 64));
            if all_zero(makerw) {
                match (word_amount(maker_amt), word_amount(taker_amt)) {
                    (Some(u), Some(t)) => Some((Side::Buy, takerw, u, t, maker_addr)),
                    _ => None,
                }
            } else if all_zero(takerw) {
                match (word_amount(taker_amt), word_amount(maker_amt)) {
                    (Some(u), Some(t)) => Some((Side::Sell, makerw, u, t, maker_addr)),
                    _ => None,
                }
            } else {
                None
            }
        },
    }
}

/// The hex block number of a log as a number, zero when unreadable.
pub open spec fn block_number_of(log: WsLog) -> nat {
    let d = strip_0x(log.block_number@);
    if d.len() > 0 && all_hex(d) && hex_num_val(d) <= u64::MAX {
        hex_num_val(d)
    } else {
        0
    }
}

/// Reads sixteen big-endian bytes as a number.
fn u128_from_be(b: &Vec<u8>, from: usize) -> (r: u128)
    requires
        from + 16 <= b@.len(),
        b@.len() <= usize::MAX,
    ensures
        r as nat == be_bytes_val(b@.subrange(from as int, from + 16)),
{
    proof {
        lemma_pow256_values();
    }
    let mut val: u128 = 0;
    let mut i: usize = 0;
    while i < 16
        invariant
            from + 16 <= b@.len(),
            b@.len() <= usize::MAX,
            i <= 16,
            val as nat == be_bytes_val(b@.subrange(from as int, from + i)),
            val < pow256(i as nat),
            pow256(16) == 0x1_0000_0000_0000_0000_0000_0000_0000_0000,
        decreases 16 - i,
    {
        proof {
            assert(b@.subrange(from as int, from + i + 1).drop_last() =~= b@.subrange(
                from as int,
                from + i,
            ));
            assert(b@.subrange(from as int, from + i + 1).last() == b@[from + i]);
            lemma_pow256_mono((i + 1) as nat, 16);
            assert(pow256((i + 1) as nat) == 256 * pow256(i as nat));
            assert((val as nat) * 256 + 255 < pow256((i + 1) as nat)) by (nonlinear_arith)
                requires
                    (val as nat) < pow256(i as nat),
                    pow256((i + 1) as nat) == 256 * pow256(i as nat),
            ;
            assert((val as nat) * 256 + 255 < pow256(16));
        }
        val = val * 256 + (b[from + i] as u128);
        i = i + 1;
    }
    val
}

/// A smaller power of 256 is no larger.
pub proof fn lemma_pow256_mono(a: nat, b: nat)
    requires
        a <= b,
    ensures
        pow256(a) <= pow256(b),
    decreases b,
{
    if a < b {
        lemma_pow256_mono(a, (b - 1) as nat);
        assert(pow256(b) == 256 * pow256((b - 1) as nat));
    }
}

/// Appends `v[from..to]` onto `out`.
fn push_byte_range(out: &mut Vec<u8>, v: &Vec<u8>, from: usize, to: usize)
    requires
        from <= to <= v@.len(),
    ensures
        final(out)@ == old(out)@ + v@.subrange(from as int, to as int),
{
    let mut i: usize = from;
    while i < to
        invariant
            from <= i <= to <= v@.len(),
            out@ == old(out)@ + v@.subrange(from as int, i as int),
        decreases to - i,
    {
        out.push(v[i]);
        proof {
            assert(old(out)@ + v@.subrange(from as int, i + 1) =~= (old(out)@ + v@.subrange(
                from as int,
                i as int,
            )).push(v@[i as int]));
        }
        i = i + 1;
    }
}

/// Every normalized topic is 64 hex digits.
pub proof fn lemma_valid_topics_wf(topics: Seq<Seq<char>>)
    ensures
        forall|k: int|
            0 <= k < valid_topics(topics).len() ==> (#[trigger] valid_topics(topics)[k]).len()
                == 64 && all_hex(valid_topics(topics)[k]),
    decreases topics.len(),
{
    if topics.len() > 0 {
        lemma_valid_topics_wf(topics.drop_last());
        let rest = valid_topics(topics.drop_last());
        match norm_topic(topics.last()) {
            Some(d) => {
                assert(valid_topics(topics) == rest.push(d));
                assert(d.len() == 64 && all_hex(d));
                assert forall|k: int|
                    0 <= k < valid_topics(topics).len() implies (#[trigger] valid_topics(
                    topics,
                )[k]).len() == 64 && all_hex(valid_topics(topics)[k]) by {
                    if k < rest.len() {
                        assert(valid_topics(topics)[k] == rest[k]);
                    } else {
                        assert(valid_topics(topics)[k] == d);
                    }
                }
            },
            None => {},
        }
    }
}

pub open spec fn pow256(n: nat) -> nat
    decreases n,
{
    if n == 0 {
        1
    } else {
        256 * pow256((n - 1) as nat)
    }
}

/// The first seventeen powers of 256, written out for the solver.
pub proof fn lemma_pow256_values()
    ensures
        pow256(16) == 0x1_0000_0000_0000_0000_0000_0000_0000_0000,
{
    assert(pow256(0) == 1);
    assert(pow256(1) == 0x100);
    assert(pow256(2) == 0x10000);
    assert(pow256(3) == 0x1000000);
    assert(pow256(4) == 0x100000000);
    assert(pow256(5) == 0x10000000000);
    assert(pow256(6) == 0x1000000000000);
    assert(pow256(7) == 0x100000000000000);
    assert(pow256(8) == 0x10000000000000000);
    assert(pow256(9) == 0x1000000000000000000);
    assert(pow256(10) == 0x100000000000000000000);
    assert(pow256(11) == 0x10000000000000000000000);
    assert(pow256(12) == 0x1000000000000000000000000);
    assert(pow256(13) == 0x100000000000000000000000000);
    assert(pow256(14) == 0x10000000000000000000000000000);
    assert(pow256(15) == 0x1000000000000000000000000000000);
    assert(pow256(16) == 0x100000000000000000000000000000000);
}

/// Big-endian bytes are bounded by 256 to their length.
pub proof fn lemma_be_bytes_bound(b: Seq<u8>)
    ensures
        be_bytes_val(b) < pow256(b.len()),
    decreases b.len(),
{
    if b.len() > 0 {
        lemma_be_bytes_bound(b.drop_last());
        assert(be_bytes_val(b.drop_last()) * 256 <= (pow256((b.len() - 1) as nat) - 1) * 256);
    }
}

/// Whether bytes `[from, to)` are all zero.
fn bytes_all_zero(b: &Vec<u8>, from: usize, to: usize) -> (r: bool)
    requires
        from <= to <= b@.len(),
    ensures
        r == all_zero(b@.subrange(from as int, to as int)),
{
    let mut i: usize = from;
    while i < to
        invariant
            from <= i <= to <= b@.len(),
            forall|j: int| from <= j < i ==> b@[j] == 0,
        decreases to - i,
    {
        if b[i] != 0 {
            proof {
                assert(b@.subrange(from as int, to as int)[i - from] == b@[i as int]);
            }
            return false;
        }
        i = i + 1;
    }
    true
}

/// Decode a fill log's topics and data. `None` on malformed hex, missing
/// topics, token splits, or amounts beyond 128 bits.
pub fn decode_fill_log(log: &WsLog) -> (r: Option<DecodedFill>)
    ensures
        r is Some <==> ws_fill_of(*log) is Some,
        r matches Some(d) ==> (ws_fill_of(*log) matches Some((side, assetw, u, t, maker)) && {
            &&& d.side == side
            &&& d.asset_dec@ == dec_of(be_bytes_val(assetw))
            &&& d.usdc_raw as nat == u
            &&& d.token_raw as nat == t
            &&& d.maker@ == maker
            &&& d.block_number as nat == block_number_of(*log)
        }),
{
    // Normalize the topics, dropping malformed ones.
    let ghost tdeep = log.topics.deep_view();
    let ntop = log.topics.len();
    let mut vt: Vec<String> = Vec::new();
    let mut i: usize = 0;
    while i < ntop
        invariant
            ntop == log.topics@.len(),
            tdeep == log.topics.deep_view(),
            i <= ntop,
            vt.deep_view() == valid_topics(tdeep.subrange(0, i as int)),
        decreases ntop - i,
    {
        proof {
            assert(tdeep.subrange(0, i + 1).drop_last() =~= tdeep.subrange(0, i as int));
            assert(tdeep.subrange(0, i + 1).last() == tdeep[i as int]);
            assert(tdeep[i as int] == log.topics@[i as int]@);
        }
        let stripped = strip_0x_prefix(log.topics[i].as_str());
        let sv = str_to_chars(stripped.as_str());
        let ok = sv.len() == 64 && crate::hexstr::decode_hex_chars(&sv).is_some();
        proof {
            if sv@.len() == 64 {
                assert(all_hex(sv@) <==> hex_bytes_of(sv@) is Some);
            }
        }
        let ghost prev = vt.deep_view();
        if ok {
            vt.push(stripped);
        }
        proof {
            if ok {
                assert(vt.deep_view() =~= prev.push(strip_0x(tdeep[i as int])));
            }
            assert(vt.deep_view() =~= valid_topics(tdeep.subrange(0, i + 1)));
        }
        i = i + 1;
    }
    proof {
        assert(tdeep.subrange(0, ntop as int) =~= tdeep);
    }
    if vt.len() < 4 {
        return None;
    }

    // Data: exactly five 32-byte words.
    let dstr = strip_0x_prefix(self_str(&log.data));
    let dv = str_to_chars(dstr.as_str());
    let data = match crate::hexstr::decode_hex_chars(&dv) {
        Some(b) => b,
        None => {
            return None;
        },
    };
    if data.len() != 160 {
        return None;
    }

    // Side and amounts.
    let maker_zero = bytes_all_zero(&data, 0, 32);
    let taker_zero = bytes_all_zero(&data, 32, 64);
    let maker_hi_zero = bytes_all_zero(&data, 64, 80);
    let taker_hi_zero = bytes_all_zero(&data, 96, 112);
    proof {
        assert(data@.subrange(64, 96).subrange(0, 16) =~= data@.subrange(64, 80));
        assert(data@.subrange(96, 128).subrange(0, 16) =~= data@.subrange(96, 112));
        assert(data@.subrange(64, 96).subrange(16, 32) =~= data@.subrange(80, 96));
        assert(data@.subrange(96, 128).subrange(16, 32) =~= data@.subrange(112, 128));
    }
    let (side, asset_from, usdc_from, token_from, ok2): (Side, usize, usize, usize, bool) =
        if maker_zero {
        (Side::Buy, 32, 64, 96, maker_hi_zero && taker_hi_zero)
    } else if taker_zero {
        (Side::Sell, 0, 96, 64, maker_hi_zero && taker_hi_zero)
    } else {
        return None;
    };
    if !ok2 {
        return None;
    }
    proof {
        assert(data@.len() == 160);
    }
    let usdc_raw = u128_from_be(&data, usdc_from + 16);
    let token_raw = u128_from_be(&data, token_from + 16);
    proof {
        assert(data@.subrange(usdc_from + 16, usdc_from + 32) =~= data@.subrange(
            usdc_from as int,
            usdc_from + 32,
        ).subrange(16, 32));
        assert(data@.subrange(token_from + 16, token_from + 32) =~= data@.subrange(
            token_from as int,
            token_from + 32,
        ).subrange(16, 32));
    }

    // The traded asset word, in decimal.
    let mut assetw: Vec<u8> = Vec::new();
    push_byte_range(&mut assetw, &data, asset_from, asset_from + 32);
    let asset_dec = u256_dec_string(&assetw);

    // Maker address: the low twenty bytes of the third topic, lowercased.
    let t2 = str_to_chars(vt[2].as_str());
    proof {
        lemma_valid_topics_wf(tdeep);
        assert(vt.deep_view()[2] == vt@[2]@);
        assert(t2@.len() == 64);
    }
    let mut addr: Vec<char> = Vec::new();
    addr.push('0');
    addr.push('x');
    proof {
        assert(addr@ =~= seq!['0', 'x'] + lower_of(t2@.subrange(24, 24)));
    }
    let mut j: usize = 24;
    while j < 64
        invariant
            t2@.len() == 64,
            t2@ == vt.deep_view()[2],
            24 <= j <= 64,
            addr@ == seq!['0', 'x'] + lower_of(t2@.subrange(24, j as int)),
        decreases 64 - j,
    {
        addr.push(crate::text::char_lower(t2[j]));
        proof {
            assert(seq!['0', 'x'] + lower_of(t2@.subrange(24, j + 1)) =~= (seq!['0', 'x']
                + lower_of(t2@.subrange(24, j as int))).push(crate::text::lower_char(
                t2@[j as int],
            )));
        }
        j = j + 1;
    }
    let maker = chars_to_string(&addr);

    // Block number from hex, zero when unreadable.
    let bn = strip_0x_prefix(self_str(&log.block_number));
    let bv = str_to_chars(bn.as_str());
    let block_number = match parse_hex_capped(&bv, 0, bv.len(), u64::MAX as u128) {
        Some(x) => x as u64,
        None => 0,
    };
    proof {
        assert(bv@.subrange(0, bv@.len() as int) =~= bv@);
    }

    Some(DecodedFill { side, asset_dec, usdc_raw, token_raw, maker, block_number })
}

fn self_str(s: &String) -> (r: &str)
    ensures
        r@ == s@,
{
    s.as_str()
}

/// The live trade a decoded subscription fill broadcasts: the decoded
/// components, amounts and price formatted, enriched from the cache entry.
pub open spec fn ws_trade_fields(
    t: LiveTrade,
    side: Side,
    asset_dec: Seq<char>,
    usdc: nat,
    token: nat,
    maker: Seq<char>,
    bn: nat,
    tx_hash: Seq<char>,
    block_timestamp: u64,
    info: Option<MarketInfo>,
) -> bool {
    &&& t.tx_hash@ == tx_hash
    &&& t.block_timestamp@ == dec_of(block_timestamp as nat)
    &&& t.trader@ == maker
    &&& t.side@ == side_label(side)
    &&& t.asset_id@ == match info {
        Some(i) => i.gamma_token_id@,
        None => crate::digest::integer_id_of(asset_dec),
    }
    &&& t.amount@ == usdc_display_of_raw(token)
    &&& t.price@ == usdc_display_of_raw(
        if usdc <= PRICE_USDC_CAP {
            price_micro_of(usdc, token)
        } else {
            0
        },
    )
    &&& t.usdc_amount@ == usdc_display_of_raw(usdc)
    &&& t.question@ == match info {
        Some(i) => i.question@,
        None => Seq::<char>::empty(),
    }
    &&& t.outcome@ == match info {
        Some(i) => i.outcome@,
        None => Seq::<char>::empty(),
    }
    &&& t.category@ == match info {
        Some(i) => i.category@,
        None => Seq::<char>::empty(),
    }
    &&& t.block_number == bn
    &&& t.cache_key@ == digest_of(asset_dec)
}

/// The live trade a decoded fill broadcasts, phrased over the decode record.
pub open spec fn ws_trade_of(
    t: LiveTrade,
    d: DecodedFill,
    tx_hash: Seq<char>,
    block_timestamp: u64,
    info: Option<MarketInfo>,
) -> bool {
    ws_trade_fields(
        t,
        d.side,
        d.asset_dec@,
        d.usdc_raw as nat,
        d.token_raw as nat,
        d.maker@,
        d.block_number as nat,
        tx_hash,
        block_timestamp,
        info,
    )
}

/// Assemble the live trade of a decoded subscription fill.
pub fn build_ws_trade(
    d: &DecodedFill,
    tx_hash: &String,
    block_timestamp: u64,
    info: Option<&MarketInfo>,
) -> (t: LiveTrade)
    ensures
        ws_trade_of(t, *d, tx_hash@, block_timestamp, crate::fills::info_val(info)),
{
    let pm = if d.usdc_raw <= PRICE_USDC_CAP {
        price_micro(d.usdc_raw, d.token_raw)
    } else {
        0
    };
    let (question, outcome, category, asset_id) = match info {
        Some(i) => (
            i.question.clone(),
            i.outcome.clone(),
            i.category.clone(),
            i.gamma_token_id.clone(),
        ),
        None => (
            String::new(),
            String::new(),
            String::new(),
            crate::digest::to_integer_id(d.asset_dec.as_str()),
        ),
    };
    let ts_chars = crate::numstr::u128_to_dec_chars(block_timestamp as u128);
    LiveTrade {
        tx_hash: tx_hash.clone(),
        block_timestamp: chars_to_string(&ts_chars),
        trader: d.maker.clone(),
        side: crate::fills::side_to_string(d.side),
        asset_id,
        amount: format_usdc_raw(d.token_raw),
        price: format_usdc_raw(pm),
        usdc_amount: format_usdc_raw(d.usdc_raw),
        question,
        outcome,
        category,
        block_number: d.block_number,
        cache_key: cache_key(d.asset_dec.as_str()),
    }
}

/// Handle one subscription notification: a removed (reorged) log yields
/// nothing at all; any other log yields a trade exactly when it decodes, with
/// the raw cash size for whale gating.
pub fn handle_ws_log(
    log: &WsLog,
    cache: &AssocMap<MarketInfo>,
    block_timestamp: u64,
) -> (r: Option<(LiveTrade, u128)>)
    requires
        cache.wf(),
    ensures
        log.removed ==> r is None,
        !log.removed ==> (r is Some <==> ws_fill_of(*log) is Some),
        r matches Some((t, u)) ==> (ws_fill_of(*log) matches Some((side, assetw, uu, tt, maker))
            && u as nat == uu && ws_trade_fields(
            t,
            side,
            dec_of(be_bytes_val(assetw)),
            uu,
            tt,
            maker,
            block_number_of(*log),
            log.transaction_hash@,
            block_timestamp,
            if cache.spec_contains(digest_of(dec_of(be_bytes_val(assetw)))) {
                Some(cache.spec_get(digest_of(dec_of(be_bytes_val(assetw)))))
            } else {
                None
            },
        )),
{
    if log.removed {
        return None;
    }
    let d = match decode_fill_log(log) {
        Some(d) => d,
        None => {
            return None;
        },
    };
    let key = cache_key(d.asset_dec.as_str());
    let info = cache.get(key.as_str());
    let usdc_raw = d.usdc_raw;
    let t = build_ws_trade(&d, &log.transaction_hash, block_timestamp, info);
    proof {
        let (side, assetw, uu, tt, maker) = ws_fill_of(*log).unwrap();
        let gkey = digest_of(dec_of(be_bytes_val(assetw)));
        assert(key@ == gkey);
        let ginfo: Option<MarketInfo> = if cache.spec_contains(gkey) {
            Some(cache.spec_get(gkey))
        } else {
            None
        };
        assert(crate::fills::info_val(info) == ginfo);
        assert(ws_trade_of(t, d, log.transaction_hash@, block_timestamp, ginfo));
        assert(ws_trade_fields(
            t,
            side,
            dec_of(be_bytes_val(assetw)),
            uu,
            tt,
            maker,
            block_number_of(*log),
            log.transaction_hash@,
            block_timestamp,
            ginfo,
        ));
    }
    Some((t, usdc_raw))
}

} // verus!

verus! {

/// Reconnect backoff floor: two seconds after a successful connect.
pub const RECONNECT_BASE_SECS: u64 = 2;

/// Reconnect backoff ceiling: one minute.
pub const RECONNECT_MAX_SECS: u64 = 60;

/// A connection-lifecycle event of the subscription task.
pub enum WsConnEvent {
    /// The socket connected; the backoff resets, the flag waits for the
    /// acknowledgement.
    Connected,
    /// The subscription was acknowledged: the stream is live.
    SubscriptionAccepted,
    /// The subscription was rejected.
    SubscriptionRejected,
    /// Sending the subscription failed.
    SendFailed,
    /// The socket closed or errored.
    Disconnected,
    /// The connect attempt itself failed.
    ConnectFailed,
}

/// What a connection event does to `(ws_active, backoff)`: a successful
/// connect resets the backoff, an acknowledgement raises the flag, and every
/// failure clears the flag at once and doubles the backoff up to the ceiling.
pub open spec fn conn_step(ev: WsConnEvent, active: bool, backoff: u64) -> (bool, u64) {
    match ev {
        WsConnEvent::Connected => (active, RECONNECT_BASE_SECS as u64),
        WsConnEvent::SubscriptionAccepted => (true, backoff),
        WsConnEvent::SubscriptionRejected
        | WsConnEvent::SendFailed
        | WsConnEvent::Disconnected
        | WsConnEvent::ConnectFailed => (
            false,
            if 2 * backoff > RECONNECT_MAX_SECS {
                RECONNECT_MAX_SECS as u64
            } else {
                (2 * backoff) as u64
            },
        ),
    }
}

/// Apply one connection event to the subscription's state.
pub fn subscriber_conn_step(ev: &WsConnEvent, active: bool, backoff: u64) -> (r: (bool, u64))
    requires
        backoff <= RECONNECT_MAX_SECS,
    ensures
        r == conn_step(*ev, active, backoff),
        r.1 <= RECONNECT_MAX_SECS,
{
    match ev {
        WsConnEvent::Connected => (active, RECONNECT_BASE_SECS),
        WsConnEvent::SubscriptionAccepted => (true, backoff),
        WsConnEvent::SubscriptionRejected
        | WsConnEvent::SendFailed
        | WsConnEvent::Disconnected
        | WsConnEvent::ConnectFailed => (
            false,
            if 2 * backoff > RECONNECT_MAX_SECS {
                RECONNECT_MAX_SECS
            } else {
                2 * backoff
            },
        ),
    }
}

/// What a block timestamp resolves to: the one-entry cache when it holds this
/// block, else the RPC answer, else the wall clock; and the cache the lookup
/// leaves behind.
pub open spec fn block_ts_of(
    cached: Option<(u64, u64)>,
    block_number: u64,
    rpc: Option<u64>,
    wall: u64,
) -> (u64, (u64, u64)) {
    match cached {
        Some((bn, ts)) => if bn == block_number {
            (ts, (bn, ts))
        } else {
            match rpc {
                Some(t) => (t, (block_number, t)),
                None => (wall, (block_number, wall)),
            }
        },
        None => match rpc {
            Some(t) => (t, (block_number, t)),
            None => (wall, (block_number, wall)),
        },
    }
}

/// Resolve a block's timestamp through the one-entry cache, the RPC answer
/// handed in by the caller, and the wall clock, in that order.
pub fn resolve_block_timestamp(
    cached: Option<(u64, u64)>,
    block_number: u64,
    rpc: Option<u64>,
    wall: u64,
) -> (r: (u64, (u64, u64)))
    ensures
        r == block_ts_of(cached, block_number, rpc, wall),
{
    match cached {
        Some((bn, ts)) if bn == block_number => (ts, (bn, ts)),
        _ => {
            let t = match rpc {
                Some(t) => t,
                None => wall,
            };
            (t, (block_number, t))
        },
    }
}

/// Build the whale alert a subscription fill raises: the trade's own fields,
/// with the exchange named from the log's emitting contract.
pub fn build_ws_whale_alert(t: &LiveTrade, log_address: &str, info: Option<&MarketInfo>) -> (a:
    Alert)
    ensures
        a matches Alert::WhaleTrade {
            timestamp,
            exchange,
            side,
            trader,
            asset_id,
            usdc_amount,
            token_amount,
            tx_hash,
            block_number,
            question,
            outcome,
        } && {
            &&& timestamp@ == t.block_timestamp@
            &&& exchange@ == exchange_label_of(log_address@)
            &&& side@ == t.side@
            &&& trader@ == t.trader@
            &&& asset_id@ == t.asset_id@
            &&& usdc_amount@ == t.usdc_amount@
            &&& token_amount@ == t.amount@
            &&& tx_hash@ == t.tx_hash@
            &&& block_number == t.block_number
            &&& question == (match crate::fills::info_val(info) {
                Some(i) => Some(i.question),
                None => None::<String>,
            })
            &&& outcome == (match crate::fills::info_val(info) {
                Some(i) => Some(i.outcome),
                None => None::<String>,
            })
        },
{
    Alert::WhaleTrade {
        timestamp: t.block_timestamp.clone(),
        exchange: exchange_of_contract(log_address),
        side: t.side.clone(),
        trader: t.trader.clone(),
        asset_id: t.asset_id.clone(),
        usdc_amount: t.usdc_amount.clone(),
        token_amount: t.amount.clone(),
        tx_hash: t.tx_hash.clone(),
        block_number: t.block_number,
        question: match info {
            Some(i) => Some(i.question.clone()),
            None => None,
        },
        outcome: match info {
            Some(i) => Some(i.outcome.clone()),
            None => None,
        },
    }
}

} // verus!
