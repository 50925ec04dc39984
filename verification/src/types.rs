//! The analytics API's data model: query parameters, database row shapes and
//! response bodies. Amount, price and PnL fields are decimal strings, as the
//! analytics store serves them and the API returns them.

use vstd::prelude::*;

verus! {

pub struct TraderSummary {
    pub address: String,
    pub total_volume: String,
    pub trade_count: u64,
    pub markets_traded: u64,
    pub realized_pnl: String,
    pub total_fees: String,
    pub first_trade: String,
    pub last_trade: String,
}

pub struct TradesResponse {
    pub trades: Vec<TradeRecord>,
    pub total: u64,
    pub limit: u32,
    pub offset: u32,
}

pub struct TradeRecord {
    pub tx_hash: String,
    pub block_number: u64,
    pub block_timestamp: String,
    pub exchange: String,
    pub side: String,
    pub asset_id: String,
    pub amount: String,
    pub price: String,
    pub usdc_amount: String,
    pub fee: String,
}

pub struct HealthStats {
    pub trade_count: u64,
    pub trader_count: u64,
    pub latest_block: u64,
}

pub struct HealthResponse {
    pub status: String,
    pub trade_count: u64,
    pub trader_count: u64,
    pub latest_block: u64,
}

pub struct LeaderboardParams {
    pub sort: Option<String>,
    pub order: Option<String>,
    pub limit: Option<u32>,
    pub offset: Option<u32>,
    pub timeframe: Option<String>,
}

pub struct TradesParams {
    pub limit: Option<u32>,
    pub offset: Option<u32>,
    pub side: Option<String>,
}

pub struct MarketStatsRow {
    pub asset_id: String,
    pub volume: String,
    pub trade_count: u64,
    pub unique_traders: u64,
    pub last_price: String,
    pub last_trade: String,
}

pub struct HotMarket {
    pub token_id: String,
    pub all_token_ids: Vec<String>,
    pub question: String,
    pub outcome: String,
    pub category: String,
    pub volume: String,
    pub trade_count: u64,
    pub unique_traders: u64,
    pub last_price: String,
    pub last_trade: String,
}

pub struct HotMarketsResponse {
    pub markets: Vec<HotMarket>,
}

pub struct HotMarketsParams {
    pub period: Option<String>,
    pub limit: Option<u32>,
}

pub struct RecentTradeRow {
    pub tx_hash: String,
    pub block_timestamp: String,
    pub trader: String,
    pub side: String,
    pub asset_id: String,
    pub amount: String,
    pub price: String,
    pub usdc_amount: String,
}

pub struct FeedTrade {
    pub tx_hash: String,
    pub block_timestamp: String,
    pub trader: String,
    pub side: String,
    pub asset_id: String,
    pub amount: String,
    pub price: String,
    pub usdc_amount: String,
    pub question: String,
    pub outcome: String,
    pub category: String,
}

pub struct LiveFeedResponse {
    pub trades: Vec<FeedTrade>,
}

pub struct LiveFeedParams {
    pub limit: Option<u32>,
    pub token_id: Option<String>,
}

pub struct PositionRow {
    pub asset_id: String,
    pub side_summary: String,
    pub net_tokens: String,
    pub cost_basis: String,
    pub latest_price: String,
    pub pnl: String,
    pub volume: String,
    pub trade_count: u64,
    pub on_chain_resolved: u8,
}

pub struct OpenPosition {
    pub asset_id: String,
    pub question: String,
    pub outcome: String,
    pub side: String,
    pub net_tokens: String,
    pub cost_basis: String,
    pub latest_price: String,
    pub pnl: String,
    pub volume: String,
    pub trade_count: u64,
}

pub struct PositionsResponse {
    pub open: Vec<OpenPosition>,
    pub closed: Vec<OpenPosition>,
}

pub struct PnlChartParams {
    pub timeframe: Option<String>,
}

/// Per-bucket, per-asset trade summary for mark-to-market PnL.
pub struct PnlDailyRow {
    pub date: String,
    pub asset_id: String,
    pub net_token_delta: String,
    pub cash_flow_delta: String,
    pub last_price: String,
}

/// Pre-window portfolio state per asset, for windowed timeframes.
pub struct PnlInitialStateRow {
    pub asset_id: String,
    pub net_tokens: String,
    pub cash_flow: String,
    pub last_price: String,
}

/// Lightweight read shape for settlement-price lookups.
pub struct ResolvedPriceLookup {
    pub asset_id: String,
    pub resolved_price: String,
}

pub struct PnlChartPoint {
    pub date: String,
    pub pnl: String,
}

pub struct PnlChartResponse {
    pub points: Vec<PnlChartPoint>,
}

pub struct ConditionResolutionRow {
    pub condition_id: String,
    pub payout_numerators: Vec<String>,
    pub block_number: u64,
}

pub struct ResolvedPriceRow {
    pub asset_id: String,
    pub resolved_price: String,
    pub condition_id: String,
    pub block_number: u64,
}

pub struct ResolveParams {
    pub token_ids: String,
}

pub struct ResolvedMarket {
    pub question: String,
    pub outcome: String,
    pub category: String,
    pub active: bool,
    /// Full-precision token identifier, for display and linking.
    pub gamma_token_id: String,
    /// Every token of the market, both sides.
    pub all_token_ids: Vec<String>,
    /// Every outcome name, parallel to `all_token_ids`.
    pub outcomes: Vec<String>,
}

/// A per-trader position row of the batch labeling query.
pub struct BatchPositionRow {
    pub trader: String,
    pub asset_id: String,
    pub pnl: String,
    pub total_volume: String,
    pub trade_count: u64,
    pub net_tokens: String,
    pub first_ts: String,
    pub last_ts: String,
    pub resolved_price: String,
    pub on_chain_resolved: u8,
    pub latest_price: String,
    pub buy_usdc: String,
    pub sell_usdc: String,
    pub buy_amount: String,
}

pub struct PositionHighlight {
    pub asset_id: String,
    pub question: String,
    pub outcome: String,
    pub pnl: String,
}

pub struct CategoryStats {
    pub category: String,
    pub volume: String,
    pub trade_count: u64,
    pub pnl: String,
}

pub struct SmartMoneyParams {
    pub top: Option<u32>,
    pub timeframe: Option<String>,
}

pub struct SmartMoneyRow {
    pub asset_id: String,
    pub smart_trader_count: u64,
    pub long_count: u64,
    pub short_count: u64,
    pub long_exposure: String,
    pub short_exposure: String,
    pub avg_price: String,
}

pub struct SmartMoneyMarket {
    pub token_id: String,
    pub question: String,
    pub outcome: String,
    pub smart_trader_count: u64,
    pub long_count: u64,
    pub short_count: u64,
    pub long_exposure: String,
    pub short_exposure: String,
    pub avg_price: String,
}

pub struct SmartMoneyResponse {
    pub markets: Vec<SmartMoneyMarket>,
    pub top: u32,
}

pub struct TraderList {
    pub id: String,
    pub name: String,
    pub member_count: u32,
    pub created_at: String,
    pub updated_at: String,
}

pub struct TraderListDetail {
    pub id: String,
    pub name: String,
    pub members: Vec<TraderListMember>,
    pub created_at: String,
    pub updated_at: String,
}

pub struct TraderListMember {
    pub address: String,
    pub label: Option<String>,
    pub added_at: String,
}

pub struct CreateListRequest {
    pub name: String,
}

pub struct RenameListRequest {
    pub name: String,
}

pub struct AddMembersRequest {
    pub addresses: Vec<String>,
    pub labels: Option<Vec<Option<String>>>,
}

pub struct RemoveMembersRequest {
    pub addresses: Vec<String>,
}

pub struct PnlDailyTraderRow {
    pub trader: String,
    pub date: String,
    pub asset_id: String,
    pub net_token_delta: String,
    pub cash_flow_delta: String,
    pub last_price: String,
}

pub struct PnlInitialStateTraderRow {
    pub trader: String,
    pub asset_id: String,
    pub net_tokens: String,
    pub cash_flow: String,
    pub last_price: String,
}

pub struct TraderScaleRow {
    pub address: String,
    pub avg_position_size: String,
    pub market_count: u64,
}

pub struct PortfolioPoint {
    pub date: String,
    pub value: String,
    pub pnl: String,
    pub pnl_pct: String,
}

pub struct CopyPortfolioParams {
    pub top: Option<u32>,
    pub list_id: Option<String>,
}

pub struct CopyPortfolioRow {
    pub trader: String,
    pub asset_id: String,
    pub net_tokens: String,
    pub avg_entry: String,
    pub latest_price: String,
    pub exposure: String,
    pub pnl: String,
}

pub struct CopyPortfolioPosition {
    pub token_id: String,
    pub question: String,
    pub outcome: String,
    pub convergence: u32,
    pub long_count: u32,
    pub short_count: u32,
    pub total_exposure: String,
    pub avg_entry: String,
    pub latest_price: String,
    pub total_pnl: String,
}

pub struct CopyPortfolioSummary {
    pub total_positions: u32,
    pub unique_markets: u32,
    pub total_exposure: String,
    pub total_pnl: String,
    pub top_n: u32,
}

pub struct CopyPortfolioResponse {
    pub positions: Vec<CopyPortfolioPosition>,
    pub summary: CopyPortfolioSummary,
}

pub struct NonceParams {
    pub address: String,
}

pub struct VerifyBody {
    pub address: String,
    pub signature: String,
    pub nonce: String,
    pub issued_at: String,
}

pub struct TradesWsParams {
    pub token_ids: String,
}

pub struct SignalWsParams {
    pub list_id: Option<String>,
    pub top_n: Option<u32>,
    pub token: String,
}

/// The wallet address a validated token names.
pub struct AuthUser(pub String);

/// Why authentication failed.
pub enum AuthError {
    InvalidSignature,
    NonceMismatch,
    Expired,
    InvalidToken,
}

impl AuthError {
    /// The response message of an authentication failure.
    pub fn message(&self) -> (r: String)
        ensures
            (self is InvalidSignature ==> r@ == "invalid signature"@) && (self is NonceMismatch
                ==> r@ == "nonce mismatch"@) && (self is Expired ==> r@ == "expired"@) && (self
                is InvalidToken ==> r@ == "invalid token"@),
    {
        match self {
            AuthError::InvalidSignature => "invalid signature".to_owned(),
            AuthError::NonceMismatch => "nonce mismatch".to_owned(),
            AuthError::Expired => "expired".to_owned(),
            AuthError::InvalidToken => "invalid token".to_owned(),
        }
    }
}

/// The settlement flag of every position row: chain resolution, catalog
/// inactivity, a pinned price, or a full exit closes a position — a positive
/// net token balance notwithstanding. `actives` runs parallel to `rows`.
pub fn settlement_flags(rows: &Vec<PositionRow>, actives: &Vec<Option<bool>>) -> (r: Vec<bool>)
    requires
        rows@.len() == actives@.len(),
    ensures
        r@.len() == rows@.len(),
        forall|j: int|
            0 <= j < rows@.len() ==> r@[j] == crate::pnl::position_settled(
                (#[trigger] rows@[j]).on_chain_resolved == 1,
                actives@[j],
                crate::pnl::money_readable(rows@[j].latest_price@),
                crate::pnl::money_micro_of(rows@[j].latest_price@),
                rows@[j].side_summary@ == "closed"@,
            ),
{
    let n = rows.len();
    let mut out: Vec<bool> = Vec::new();
    let mut i: usize = 0;
    while i < n
        invariant
            n == rows@.len(),
            n == actives@.len(),
            i <= n,
            out@.len() == i,
            forall|j: int|
                0 <= j < i ==> out@[j] == crate::pnl::position_settled(
                    (#[trigger] rows@[j]).on_chain_resolved == 1,
                    actives@[j],
                    crate::pnl::money_readable(rows@[j].latest_price@),
                    crate::pnl::money_micro_of(rows@[j].latest_price@),
                    rows@[j].side_summary@ == "closed"@,
                ),
        decreases n - i,
    {
        let row = &rows[i];
        let settled = crate::pnl::classify_position(
            row.on_chain_resolved == 1,
            actives[i],
            row.latest_price.as_str(),
            row.side_summary.as_str(),
        );
        out.push(settled);
        i = i + 1;
    }
    out
}

} // verus!
