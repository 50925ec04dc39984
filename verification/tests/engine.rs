use dearboard::authstore::AuthStore;
use dearboard::convergence::ConvergenceDetector;
use dearboard::digest::{cache_key, significant_digits, to_integer_id};
use dearboard::fills::{build_live_trade, classify_fill, parse_order_filled, Alert, FillEvent, LiveTrade, Side, TxInfo};
use dearboard::money::{format_usdc, is_whale, parse_display_micro, parse_raw_or_zero, price_micro};
use dearboard::pipeline::{handle_webhook_fill, is_event_live};
use dearboard::pnl::{classify_position, parse_money_micro};
use dearboard::portfolio::{clamp_buy, max_drawdown};
use dearboard::resolution::{resolved_price_micro, verify_catalog_response, winning_index, CatalogMarket};
use dearboard::hotmerge::{merge_hot_rows, HotRow};
use dearboard::assoc::AssocMap;
use dearboard::subscriber::{handle_ws_log, WsLog};
use dearboard::authstore::{ListError, ListStore};
use dearboard::hotmerge::{merge_copy_rows, merge_smart_rows, top_hot_markets, CopyRowIn, HotAgg, SmartRowIn};
use dearboard::labels::{biggest_positions, category_breakdown, dominant_category, group_batch_rows, ProfilePositionRow};
use dearboard::market::MarketInfo;
use dearboard::portfolio::{compute_pnl_points, replay_rows, AssetState};
use dearboard::queries::{validate_eth_address, webhook_authorized};
use dearboard::resolution::resolved_price_rows;
use dearboard::subscriber::{resolve_block_timestamp, subscriber_conn_step, WsConnEvent};

fn fill_event(maker_asset: &str, taker_asset: &str, maker_amt: &str, taker_amt: &str) -> FillEvent {
    FillEvent {
        maker_asset_id: maker_asset.to_string(),
        taker_asset_id: taker_asset.to_string(),
        maker_amount: maker_amt.to_string(),
        taker_amount: taker_amt.to_string(),
        maker: "0xAbCd000000000000000000000000000000000001".to_string(),
        contract: "0x4bFb41d5B3570DeFd03C39a9A4D8dE6Bd8B8982E".to_string(),
        tx: TxInfo {
            transaction_hash: "0xhash".to_string(),
            block_number: 7,
            block_timestamp: "1705312496".to_string(),
        },
    }
}

fn live_trade(trader: &str, asset: &str, side: &str, usdc: &str) -> LiveTrade {
    LiveTrade {
        tx_hash: "0xt".to_string(),
        block_timestamp: "1".to_string(),
        trader: trader.to_string(),
        side: side.to_string(),
        asset_id: asset.to_string(),
        amount: "1.000000".to_string(),
        price: "0.500000".to_string(),
        usdc_amount: usdc.to_string(),
        question: "Will it?".to_string(),
        outcome: "Yes".to_string(),
        category: "Sports".to_string(),
        block_number: 1,
        cache_key: cache_key(asset),
    }
}

#[test]
fn digest_collapses_scientific_and_full_precision() {
    let sci = "8.715511933644157e75";
    assert_eq!(cache_key(sci), "871551193364415");
    let full = to_integer_id(sci);
    assert_eq!(full.len(), 76);
    assert!(full.starts_with("8715511933644157"));
    assert_eq!(cache_key(&full), "871551193364415");
}

#[test]
fn digest_of_full_precision_is_prefix() {
    let id = "51797304566750985981350199456112486158342522966612963577562231494287586817567";
    assert_eq!(to_integer_id(id), id);
    assert_eq!(cache_key(id), "517973045667509");
    assert_eq!(significant_digits("1.25e3"), "125");
}

#[test]
fn expansion_handles_plus_exponent_and_rejects_non_integral() {
    assert_eq!(to_integer_id("1.5e+3"), "1500");
    assert_eq!(to_integer_id("1.5e0"), "1.5e0");
    assert_eq!(to_integer_id("nonsense"), "nonsense");
    assert_eq!(to_integer_id("1e400"), "1e400");
}

#[test]
fn side_classification_buy() {
    let ev = fill_event("0", "77", "5000000", "10000000");
    let parts = classify_fill(&ev).expect("a trade");
    assert!(matches!(parts.side, Side::Buy));
    assert_eq!(parts.asset_id, "77");
    assert_eq!(parts.usdc_raw, "5000000");
    assert_eq!(parts.token_raw, "10000000");
    let trade = build_live_trade(&ev, None).expect("a trade");
    assert_eq!(trade.side, "buy");
    assert_eq!(trade.price, "0.500000");
    assert_eq!(trade.usdc_amount, "5.000000");
    assert_eq!(trade.amount, "10.000000");
}

#[test]
fn side_classification_sell_and_mint() {
    let ev = fill_event("88", "0", "10000000", "5000000");
    let parts = classify_fill(&ev).expect("a trade");
    assert!(matches!(parts.side, Side::Sell));
    assert_eq!(parts.asset_id, "88");
    assert_eq!(parts.usdc_raw, "5000000");
    let mint = fill_event("88", "77", "1", "1");
    assert!(classify_fill(&mint).is_none());
}

#[test]
fn whale_threshold_closed_open() {
    assert!(is_whale(25_000_000_000));
    assert!(!is_whale(24_999_999_999));
    let big = fill_event("0", "77", "25000000000", "50000000000");
    assert!(parse_order_filled(&big, None).is_some());
    let small = fill_event("0", "77", "24999999999", "50000000000");
    assert!(parse_order_filled(&small, None).is_none());
}

#[test]
fn whale_alert_carries_exchange() {
    let mut ev = fill_event("0", "77", "25000000000", "50000000000");
    ev.contract = "0xc5d563a36ae78145c45a50134d48a1215220f80a".to_string();
    match parse_order_filled(&ev, None) {
        Some(Alert::WhaleTrade { exchange, usdc_amount, .. }) => {
            assert_eq!(exchange, "neg_risk");
            assert_eq!(usdc_amount, "25000.000000");
        },
        _ => panic!("expected a whale alert"),
    }
}

#[test]
fn mutual_exclusion_webhook_suppressed_while_ws_active() {
    let ev = fill_event("0", "77", "5000000", "10000000");
    let with_ws = handle_webhook_fill(&ev, None, true, true);
    assert!(with_ws.trade.is_none());
    assert!(with_ws.whale.is_none());
}

#[test]
fn fallback_webhook_emits_when_ws_down_and_stops_on_reconnect() {
    let ev = fill_event("0", "77", "25000000000", "50000000000");
    let down = handle_webhook_fill(&ev, None, false, true);
    assert!(down.trade.is_some());
    assert!(down.whale.is_some());
    let reconnected = handle_webhook_fill(&ev, None, true, true);
    assert!(reconnected.trade.is_none());
    let stale = handle_webhook_fill(&ev, None, false, false);
    assert!(stale.trade.is_none());
}

#[test]
fn event_liveness_fails_open_and_reads_both_bases() {
    assert!(is_event_live(None, 1_000_000));
    let junk = "not a number".to_string();
    assert!(is_event_live(Some(&junk), 1_000_000));
    let dec = "1705312496".to_string();
    assert!(is_event_live(Some(&dec), 1_705_312_500));
    assert!(!is_event_live(Some(&dec), 1_705_312_496 + 300));
    assert!(is_event_live(Some(&dec), 1_705_312_496 + 299));
    let hex = "0x65a3c8f0".to_string();
    let ts = i64::from_str_radix("65a3c8f0", 16).unwrap();
    assert!(is_event_live(Some(&hex), ts + 100));
    assert!(!is_event_live(Some(&hex), ts + 301));
}

#[test]
fn nonce_rotation_rejects_replay() {
    let mut store = AuthStore::new();
    store.upsert_nonce("0xAbC1", "nonce-one".to_string(), "2024-01-15T10:00:00Z".to_string());
    let ok = store.verify_and_rotate_nonce(
        "0xABC1",
        "nonce-one",
        "2024-01-15T10:00:00Z",
        "nonce-two".to_string(),
        "2024-01-15T10:00:05Z".to_string(),
    );
    assert!(ok);
    let replay = store.verify_and_rotate_nonce(
        "0xABC1",
        "nonce-one",
        "2024-01-15T10:00:00Z",
        "nonce-three".to_string(),
        "2024-01-15T10:00:06Z".to_string(),
    );
    assert!(!replay);
}

#[test]
fn pnl_views_agree_on_a_concrete_book() {
    // Two assets, three trades; position view vs trade view, in
    // micro-squared units.
    let trades: [(&str, i128, i128, i128); 3] = [
        ("a", 1, 10_000_000, 4_000_000),
        ("a", -1, 4_000_000, 2_000_000),
        ("b", 1, 2_000_000, 1_000_000),
    ];
    let price_a: i128 = 500_000;
    let price_b: i128 = 700_000;
    let mut trade_view: i128 = 0;
    for (asset, dir, amount, usdc) in trades.iter() {
        let price = if *asset == "a" { price_a } else { price_b };
        let cash = if *dir > 0 { -usdc } else { *usdc };
        let tokens = dir * amount;
        trade_view += cash * 1_000_000 + tokens * price;
    }
    let pos_a = dearboard::pnl::position_pnl_scaled_exec(2_000_000, 4_000_000, 10_000_000, 4_000_000, price_a);
    let pos_b = dearboard::pnl::position_pnl_scaled_exec(0, 1_000_000, 2_000_000, 0, price_b);
    assert_eq!(trade_view, pos_a + pos_b);
}

#[test]
fn resolution_catalog_response_must_match_condition() {
    let records = vec![
        CatalogMarket {
            condition_id: Some("0xother".to_string()),
            question: Some("Wrong market".to_string()),
            outcomes: vec![],
            token_ids: vec![],
        },
    ];
    assert!(verify_catalog_response(&records, "0xwanted").is_none());
    let good = vec![
        CatalogMarket {
            condition_id: Some("0xWanted".to_string()),
            question: Some("Right market".to_string()),
            outcomes: vec!["Yes".to_string(), "No".to_string()],
            token_ids: vec!["1".to_string(), "2".to_string()],
        },
    ];
    // Identifier matching strips the prefix but is case sensitive, as the
    // on-chain hex is.
    assert!(verify_catalog_response(&good, "0xWanted").is_some());
}

#[test]
fn convergence_dedups_within_a_minute() {
    let mut d = ConvergenceDetector::new();
    let t_a = live_trade("0xaaa", "55", "buy", "1000.000000");
    let t_b = live_trade("0xbbb", "55", "buy", "2000.000000");
    assert!(d.record_trade(&t_a, 100).is_none());
    let alert = d.record_trade(&t_b, 130).expect("convergence");
    assert_eq!(alert.trader_count, 2);
    assert_eq!(alert.side, "BUY");
    assert_eq!(alert.total_usdc_micro, 3_000_000_000u128);
    assert_eq!(alert.window_seconds, 300);
    // A third curated trade moments later stays quiet.
    let t_c = live_trade("0xccc", "55", "sell", "10.000000");
    assert!(d.record_trade(&t_c, 150).is_none());
    // Past the dedup interval it fires again.
    let t_d = live_trade("0xddd", "55", "buy", "5.000000");
    assert!(d.record_trade(&t_d, 200).is_some());
}

#[test]
fn convergence_window_evicts_old_entries() {
    let mut d = ConvergenceDetector::new();
    let t_a = live_trade("0xaaa", "55", "buy", "1.000000");
    let t_b = live_trade("0xbbb", "55", "buy", "1.000000");
    assert!(d.record_trade(&t_a, 100).is_none());
    // Beyond the 300 second window the first trade no longer counts.
    assert!(d.record_trade(&t_b, 500).is_none());
    d.sweep(500);
}

#[test]
fn hot_merge_sums_siblings_and_keeps_larger_side() {
    let rows = vec![
        HotRow {
            question: "Will it rain?".to_string(),
            display_id: "yes-token".to_string(),
            category: "Weather".to_string(),
            volume: "100.000000".to_string(),
            trade_count: 4,
            unique_traders: 3,
            last_price: "0.600000".to_string(),
            last_trade: "2024-01-01 00:00:01".to_string(),
        },
        HotRow {
            question: "Will it rain?".to_string(),
            display_id: "no-token".to_string(),
            category: "Weather".to_string(),
            volume: "250.000000".to_string(),
            trade_count: 6,
            unique_traders: 2,
            last_price: "0.400000".to_string(),
            last_trade: "2024-01-01 00:00:02".to_string(),
        },
    ];
    let merged = merge_hot_rows(&rows);
    assert_eq!(merged.len(), 1);
    let agg = merged.get("Will it rain?").expect("one merged market");
    assert_eq!(agg.volume_micro, 350_000_000);
    assert_eq!(agg.trade_count, 10);
    assert_eq!(agg.token_id, "no-token");
    assert_eq!(agg.all_token_ids.len(), 2);
    assert_eq!(agg.last_trade, "2024-01-01 00:00:02");
}

#[test]
fn resolved_price_from_payout_vector() {
    let nums = vec!["3".to_string(), "0".to_string()];
    assert_eq!(resolved_price_micro(&nums, 0), Some(1_000_000));
    assert_eq!(resolved_price_micro(&nums, 1), Some(0));
    assert_eq!(winning_index(&nums), Some(0));
    let zero = vec!["0".to_string(), "0".to_string()];
    assert_eq!(resolved_price_micro(&zero, 0), None);
    let split = vec!["1".to_string(), "1".to_string()];
    assert_eq!(resolved_price_micro(&split, 0), Some(500_000));
}

#[test]
fn position_classification_settled_closes_even_when_held() {
    // On-chain resolved with a positive net balance: closed.
    assert!(classify_position(true, None, "0.800000", "long"));
    // Catalog-inactive closes too.
    assert!(classify_position(false, Some(false), "0.500000", "long"));
    // Price pinned to an end closes.
    assert!(classify_position(false, None, "0.004000", "long"));
    assert!(classify_position(false, None, "0.996000", "long"));
    // Fully exited closes.
    assert!(classify_position(false, None, "0.500000", "closed"));
    // Otherwise open.
    assert!(!classify_position(false, Some(true), "0.500000", "long"));
}

#[test]
fn reorg_skip_produces_nothing() {
    let cache: AssocMap<dearboard::market::MarketInfo> = AssocMap::new();
    let log = WsLog {
        topics: vec![
            format!("0x{}", "11".repeat(32)),
            format!("0x{}", "22".repeat(32)),
            format!("0x{}", "33".repeat(32)),
            format!("0x{}", "44".repeat(32)),
        ],
        data: format!(
            "0x{}{}{}{}{}",
            "00".repeat(32),
            format!("{:064x}", 77u64),
            format!("{:064x}", 5_000_000u64),
            format!("{:064x}", 10_000_000u64),
            "00".repeat(32)
        ),
        transaction_hash: "0xdead".to_string(),
        block_number: "0x10".to_string(),
        removed: true,
    };
    assert!(handle_ws_log(&log, &cache, 1000).is_none());
    let mut live = log;
    live.removed = false;
    let (trade, usdc) = handle_ws_log(&live, &cache, 1000).expect("a decoded trade");
    assert_eq!(usdc, 5_000_000);
    assert_eq!(trade.side, "buy");
    assert_eq!(trade.asset_id, "77");
    assert_eq!(trade.price, "0.500000");
    assert_eq!(trade.block_number, 16);
    assert_eq!(
        trade.trader,
        format!("0x{}", "33".repeat(20))
    );
}

#[test]
fn backtest_capital_constraint_clips_to_balance() {
    // 100 USDC of cash cannot fund a 150 USDC buy: the spend clips to the
    // balance and cash settles at zero.
    let cash: i128 = 100_000_000;
    let (dt, dc) = clamp_buy(cash, 300_000_000, -150_000_000);
    assert_eq!(dc, -100_000_000);
    assert_eq!(cash + dc, 0);
    assert_eq!(dt, 200_000_000);
    // With no cash at all the buy is skipped.
    assert_eq!(clamp_buy(0, 300_000_000, -150_000_000), (0, 0));
    // Sells always pass.
    assert_eq!(clamp_buy(0, -5, 7), (-5, 7));
}

#[test]
fn drawdown_tracks_running_peak() {
    let values: Vec<i128> = vec![120, 90, 140, 100];
    assert_eq!(max_drawdown(&values, 100), 40);
    let flat: Vec<i128> = vec![];
    assert_eq!(max_drawdown(&flat, 100), 0);
}

#[test]
fn usdc_formatting_and_parsing() {
    assert_eq!(format_usdc("25000000000"), "25000.000000");
    assert_eq!(format_usdc("1"), "0.000001");
    assert_eq!(format_usdc("junk"), "0.000000");
    assert_eq!(parse_raw_or_zero("123"), 123);
    assert_eq!(parse_display_micro("0.500000"), 500_000);
    assert_eq!(parse_display_micro("2000.000000"), 2_000_000_000);
    assert_eq!(parse_display_micro("1.2345678"), 1_234_567);
    assert_eq!(parse_money_micro("-3.5"), -3_500_000);
    assert_eq!(price_micro(5_000_000, 10_000_000), 500_000);
    assert_eq!(price_micro(1, 0), 0);
    assert_eq!(price_micro(1, 3), 333_333);
    assert_eq!(price_micro(2, 3), 666_667);
}

#[test]
fn resolution_alert_enriched_from_sorted_matches() {
    let info = |outcome: &str, idx: usize, token: &str| dearboard::market::MarketInfo {
        question: "Who wins?".to_string(),
        outcome: outcome.to_string(),
        category: "Politics".to_string(),
        active: true,
        gamma_token_id: token.to_string(),
        condition_id: Some("0xc1".to_string()),
        outcome_index: idx,
        all_token_ids: vec![],
        outcomes: vec![],
    };
    let matched = vec![info("Yes", 0, "tok-yes"), info("No", 1, "tok-no")];
    let tx = TxInfo {
        transaction_hash: "0xr".to_string(),
        block_number: 9,
        block_timestamp: "1700000000".to_string(),
    };
    let nums = vec!["0".to_string(), "7".to_string()];
    let alert = dearboard::resolution::build_resolution_alert(
        &"0xc1".to_string(),
        &"0xoracle".to_string(),
        &"0xq".to_string(),
        &nums,
        &tx,
        &matched,
    );
    match alert {
        Alert::MarketResolution { question, winning_outcome, outcomes, token_id, .. } => {
            assert_eq!(question.as_deref(), Some("Who wins?"));
            assert_eq!(winning_outcome.as_deref(), Some("No"));
            assert_eq!(outcomes, vec!["Yes".to_string(), "No".to_string()]);
            assert_eq!(token_id.as_deref(), Some("tok-yes"));
        },
        _ => panic!("expected a resolution alert"),
    }
}

#[test]
fn replay_applies_capital_constraint_end_to_end() {
    let mut state: AssocMap<AssetState> = AssocMap::new();
    let scales: AssocMap<u64> = AssocMap::new();
    let resolved: AssocMap<i64> = AssocMap::new();
    let rows = vec![
        dearboard::types::PnlDailyTraderRow {
            trader: "0xA".to_string(),
            date: "2024-01-01".to_string(),
            asset_id: "x".to_string(),
            net_token_delta: "300.000000".to_string(),
            cash_flow_delta: "-150.000000".to_string(),
            last_price: "0.500000".to_string(),
        },
        dearboard::types::PnlDailyTraderRow {
            trader: "0xA".to_string(),
            date: "2024-01-02".to_string(),
            asset_id: "x".to_string(),
            net_token_delta: "0.000000".to_string(),
            cash_flow_delta: "0.000000".to_string(),
            last_price: "0.500000".to_string(),
        },
    ];
    // 100 USDC of capital cannot fund the 150 USDC buy: the spend clips to
    // the balance, cash settles at zero, and 200 scaled tokens arrive.
    let points = replay_rows(&rows, &mut state, 100_000_000, &scales, &resolved, 100_000_000);
    assert_eq!(points.len(), 2);
    let first = &points[0];
    assert_eq!(first.date, "2024-01-01");
    // value = cash 0 + 200 tokens at 0.5 = 100 USDC, in micro-squared units.
    assert_eq!(first.value_scaled, 100_000_000i128 * 1_000_000);
    assert_eq!(first.pnl_scaled, 0);
}

#[test]
fn chart_fold_marks_buckets_and_overlays_resolved() {
    let mut state: AssocMap<AssetState> = AssocMap::new();
    let mut resolved: AssocMap<i64> = AssocMap::new();
    resolved.insert("x".to_string(), 1_000_000);
    let rows = vec![
        dearboard::types::PnlDailyRow {
            date: "2024-01-01".to_string(),
            asset_id: "x".to_string(),
            net_token_delta: "10.000000".to_string(),
            cash_flow_delta: "-5.000000".to_string(),
            last_price: "0.500000".to_string(),
        },
        dearboard::types::PnlDailyRow {
            date: "2024-01-02".to_string(),
            asset_id: "x".to_string(),
            net_token_delta: "0.000000".to_string(),
            cash_flow_delta: "0.000000".to_string(),
            last_price: "0.400000".to_string(),
        },
    ];
    let points = compute_pnl_points(&rows, &mut state, &resolved);
    assert_eq!(points.len(), 2);
    // Bucket one marks at the running price: -5 + 10*0.5 = 0.
    assert_eq!(points[0].pnl_scaled, 0);
    // The final point overlays the resolved price: -5 + 10*1.0 = 5 USDC.
    assert_eq!(points[1].pnl_scaled, 5_000_000i128 * 1_000_000);
}

#[test]
fn smart_and_copy_merges_group_by_question() {
    let smart = vec![
        SmartRowIn {
            question: "Q".to_string(),
            token_id: "yes".to_string(),
            outcome: "Yes".to_string(),
            smart_trader_count: 3,
            long_count: 2,
            short_count: 1,
            long_exposure: "10.000000".to_string(),
            short_exposure: "1.000000".to_string(),
            avg_price: "0.600000".to_string(),
        },
        SmartRowIn {
            question: "Q".to_string(),
            token_id: "no".to_string(),
            outcome: "No".to_string(),
            smart_trader_count: 5,
            long_count: 1,
            short_count: 0,
            long_exposure: "2.000000".to_string(),
            short_exposure: "0.500000".to_string(),
            avg_price: "0.400000".to_string(),
        },
    ];
    let m = merge_smart_rows(&smart);
    let agg = m.get("Q").expect("merged market");
    assert_eq!(agg.long_count, 3);
    assert_eq!(agg.short_count, 1);
    assert_eq!(agg.smart_trader_count, 5);
    assert_eq!(agg.long_exposure_micro, 12_000_000);
    assert_eq!(agg.short_exposure_micro, 1_500_000);
    assert_eq!(agg.token_id, "yes");

    let copies = vec![
        CopyRowIn {
            question: "Q".to_string(),
            token_id: "yes".to_string(),
            outcome: "Yes".to_string(),
            trader: "a".to_string(),
            net_tokens: "5.000000".to_string(),
            avg_entry: "0.400000".to_string(),
            latest_price: "0.500000".to_string(),
            exposure: "10.000000".to_string(),
            pnl: "1.000000".to_string(),
        },
        CopyRowIn {
            question: "Q".to_string(),
            token_id: "no".to_string(),
            outcome: "No".to_string(),
            trader: "b".to_string(),
            net_tokens: "-2.000000".to_string(),
            avg_entry: "0.600000".to_string(),
            latest_price: "0.500000".to_string(),
            exposure: "30.000000".to_string(),
            pnl: "-0.500000".to_string(),
        },
        CopyRowIn {
            question: "Q".to_string(),
            token_id: "yes".to_string(),
            outcome: "Yes".to_string(),
            trader: "a".to_string(),
            net_tokens: "1.000000".to_string(),
            avg_entry: "0.400000".to_string(),
            latest_price: "0.500000".to_string(),
            exposure: "0.000000".to_string(),
            pnl: "0.250000".to_string(),
        },
    ];
    let c = merge_copy_rows(&copies);
    let agg = c.get("Q").expect("merged position");
    // Trader a appears twice but counts once; convergence counts both.
    assert_eq!(agg.traders.len(), 2);
    assert_eq!(agg.long_count, 1);
    assert_eq!(agg.short_count, 1);
    assert_eq!(agg.exposure_micro, 40_000_000);
    assert_eq!(agg.pnl_micro, 750_000);
    // Exposure-weighted entry: (10*0.4 + 30*0.6) / 40 = 0.55.
    assert_eq!(agg.entry_micro, 550_000);
}

#[test]
fn profile_aggregation_finds_extremes_and_categories() {
    let row = |pnl: &str, vol: &str| ProfilePositionRow {
        asset_id: "x".to_string(),
        pnl: pnl.to_string(),
        total_volume: vol.to_string(),
        trade_count: 2,
        net_tokens: "1.000000".to_string(),
        first_ts: String::new(),
        last_ts: String::new(),
        resolved_price: String::new(),
        on_chain_resolved: 0,
        latest_price: "0.500000".to_string(),
        buy_usdc: "1.000000".to_string(),
        sell_usdc: "1.000000".to_string(),
        buy_amount: "1.000000".to_string(),
    };
    let positions = vec![row("5.000000", "10.000000"), row("-3.000000", "50.000000"), row(
        "7.000000",
        "1.000000",
    )];
    let (win, loss) = biggest_positions(&positions);
    assert_eq!(win, Some(2));
    assert_eq!(loss, Some(1));
    let cats = vec!["Sports".to_string(), "Politics".to_string(), "Sports".to_string()];
    let breakdown = category_breakdown(&positions, &cats);
    assert_eq!(breakdown.len(), 2);
    let sports = breakdown.get("Sports").expect("sports bucket");
    assert_eq!(sports.volume_micro, 11_000_000);
    assert_eq!(sports.pnl_micro, 12_000_000);
    assert_eq!(sports.trade_count, 4);
    let dom = dominant_category(&breakdown).expect("a dominant category");
    assert_eq!(breakdown.key_at(dom).as_str(), "Politics");
}

#[test]
fn batch_rows_group_by_lowercased_trader() {
    let row = |trader: &str, asset: &str| dearboard::types::BatchPositionRow {
        trader: trader.to_string(),
        asset_id: asset.to_string(),
        pnl: "0".to_string(),
        total_volume: "0".to_string(),
        trade_count: 1,
        net_tokens: "0".to_string(),
        first_ts: String::new(),
        last_ts: String::new(),
        resolved_price: String::new(),
        on_chain_resolved: 0,
        latest_price: "0.5".to_string(),
        buy_usdc: "0".to_string(),
        sell_usdc: "0".to_string(),
        buy_amount: "0".to_string(),
    };
    let rows = vec![row("0xAA", "1"), row("0xaa", "2"), row("0xBB", "3")];
    let grouped = group_batch_rows(&rows);
    assert_eq!(grouped.len(), 2);
    assert_eq!(grouped.get("0xaa").expect("group").len(), 2);
    assert_eq!(grouped.get("0xbb").expect("group").len(), 1);
}

#[test]
fn resolved_price_rows_join_cache_and_chain() {
    let mut cache: AssocMap<MarketInfo> = AssocMap::new();
    cache.insert(
        dearboard::digest::cache_key("123"),
        MarketInfo {
            question: "Q".to_string(),
            outcome: "Yes".to_string(),
            category: String::new(),
            active: false,
            gamma_token_id: "123".to_string(),
            condition_id: Some("0xc1".to_string()),
            outcome_index: 0,
            all_token_ids: vec!["123".to_string()],
            outcomes: vec!["Yes".to_string()],
        },
    );
    let mut resolutions: AssocMap<(Vec<String>, u64)> = AssocMap::new();
    resolutions.insert("c1".to_string(), (vec!["3".to_string(), "0".to_string()], 42));
    let rows = resolved_price_rows(
        &vec!["123".to_string(), "999".to_string()],
        &cache,
        &resolutions,
    );
    assert_eq!(rows.len(), 1);
    assert_eq!(rows[0].asset_id, "123");
    assert_eq!(rows[0].resolved_price, "1.000000");
    assert_eq!(rows[0].condition_id, "0xc1");
    assert_eq!(rows[0].block_number, 42);
}

#[test]
fn list_store_enforces_ownership_and_removal() {
    let mut store = ListStore::new();
    store
        .create_trader_list("id-1".to_string(), "owner", "watch", "t0".to_string())
        .expect("created");
    assert!(matches!(
        store.create_trader_list("id-2".to_string(), "owner", "watch", "t1".to_string()),
        Err(ListError::DuplicateName)
    ));
    store
        .add_list_members(
            "id-1",
            "owner",
            &vec!["0xa".to_string(), "0xb".to_string(), "0xa".to_string()],
            "t2".to_string(),
        )
        .expect("added");
    let addrs = store.get_list_member_addresses("id-1", "owner").expect("members");
    assert_eq!(addrs.len(), 2);
    assert!(matches!(
        store.get_list_member_addresses("id-1", "intruder"),
        Err(ListError::NotFound)
    ));
    store
        .remove_list_members("id-1", "owner", &vec!["0xa".to_string()], "t3".to_string())
        .expect("removed");
    let addrs = store.get_list_member_addresses("id-1", "owner").expect("members");
    assert_eq!(addrs, vec!["0xb".to_string()]);
    store.rename_trader_list("id-1", "owner", "renamed".to_string(), "t4".to_string()).expect(
        "renamed",
    );
    let lists = store.list_trader_lists("owner");
    assert_eq!(lists.len(), 1);
    assert_eq!(lists[0].name, "renamed");
    assert_eq!(lists[0].member_count, 1);
    store.delete_trader_list("id-1", "owner").expect("deleted");
    assert!(store.list_trader_lists("owner").is_empty());
}

#[test]
fn list_store_rejects_oversized_member_batches() {
    let mut store = ListStore::new();
    store
        .create_trader_list("id-1".to_string(), "owner", "big", "t0".to_string())
        .expect("created");
    let many: Vec<String> = (0..101).map(|i| format!("0x{i}")).collect();
    assert!(matches!(
        store.add_list_members("id-1", "owner", &many, "t1".to_string()),
        Err(ListError::LimitExceeded)
    ));
    assert_eq!(store.get_list_member_addresses("id-1", "owner").expect("members").len(), 0);
}

#[test]
fn hot_markets_response_is_sorted_and_capped() {
    let agg = |vol: u128, id: &str| HotAgg {
        token_id: id.to_string(),
        all_token_ids: vec![id.to_string()],
        category: String::new(),
        volume_micro: vol,
        trade_count: 1,
        unique_traders: 1,
        last_price: "0.5".to_string(),
        last_trade: String::new(),
    };
    let out = top_hot_markets(vec![agg(5, "a"), agg(9, "b"), agg(7, "c")], 2);
    assert_eq!(out.len(), 2);
    assert_eq!(out[0].token_id, "b");
    assert_eq!(out[1].token_id, "c");
    assert_eq!(dearboard::queries::cap_limit(None, 20, 100), 20);
    assert_eq!(dearboard::queries::cap_limit(Some(500), 20, 100), 100);
    assert_eq!(dearboard::queries::hot_fetch_limit(20), 60);
}

#[test]
fn address_and_secret_guards() {
    let ok = validate_eth_address("0x4bFb41d5B3570DeFd03C39a9A4D8dE6Bd8B8982E").expect("valid");
    assert_eq!(ok, "0x4bfb41d5b3570defd03c39a9a4d8de6bd8b8982e");
    assert!(validate_eth_address("0x123").is_none());
    assert!(validate_eth_address("4bFb41d5B3570DeFd03C39a9A4D8dE6Bd8B8982E00").is_none());
    assert!(webhook_authorized("", "anything"));
    assert!(webhook_authorized("s3", "s3"));
    assert!(!webhook_authorized("s3", "other"));
}

#[test]
fn subscriber_connection_policy() {
    assert_eq!(subscriber_conn_step(&WsConnEvent::Connected, false, 32), (false, 2));
    assert_eq!(subscriber_conn_step(&WsConnEvent::SubscriptionAccepted, false, 2), (true, 2));
    assert_eq!(subscriber_conn_step(&WsConnEvent::Disconnected, true, 16), (false, 32));
    assert_eq!(subscriber_conn_step(&WsConnEvent::ConnectFailed, false, 60), (false, 60));
    // Cache hit, RPC answer, wall-clock fallback, in that order.
    assert_eq!(resolve_block_timestamp(Some((7, 100)), 7, Some(999), 50), (100, (7, 100)));
    assert_eq!(resolve_block_timestamp(Some((6, 100)), 7, Some(999), 50), (999, (7, 999)));
    assert_eq!(resolve_block_timestamp(None, 7, None, 50), (50, (7, 50)));
}

#[test]
fn unreadable_price_settles_nothing() {
    // A price that does not parse reads as one half: not pinned to an end,
    // so it closes no position by itself.
    assert!(!classify_position(false, None, "not a price", "long"));
    assert!(classify_position(true, None, "not a price", "long"));
}
