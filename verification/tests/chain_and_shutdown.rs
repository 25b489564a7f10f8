use kyotod::addr::parse_network;
use kyotod::config::resolve_config;
use kyotod::format::{btc_string, pad_left, pad_right, u64_to_dec};
use kyotod::guard::Guard;
use kyotod::shutdown::{ServeLoop, ShutdownCoordinator};
use kyotod::state::WalletState;
use kyotod::types::{ChainUpdate, Coin, CoinRecord, ErrorKind, Keychain, Network};
use kyotod::worker::{worker_step, WorkerStep};

fn record(outpoint: u64, value_sat: u64, index: u32, height: Option<u32>, spent: bool) -> CoinRecord {
    CoinRecord {
        outpoint,
        value_sat,
        keychain: Keychain::External,
        derivation_index: index,
        confirmation_height: height,
        spent,
    }
}

fn fresh_state() -> WalletState {
    WalletState {
        coins: Vec::new(),
        reserved: Vec::new(),
        next_external_index: 0,
        next_internal_index: 0,
        receive_descriptor: "wpkh(receive)".to_string(),
        change_descriptor: "wpkh(change)".to_string(),
        network: Network::Signet,
    }
}

fn observe(state: &WalletState) -> (Vec<Coin>, u32, u32) {
    (state.coins.clone(), state.next_external_index, state.next_internal_index)
}

#[test]
fn applying_an_update_twice_changes_nothing() {
    let update = ChainUpdate {
        records: vec![
            record(1, 40_000, 0, Some(90), false),
            record(2, 60_000, 1, None, false),
            record(3, 5_000, 2, Some(95), true),
        ],
    };
    let mut once = fresh_state();
    once.apply_update(&update).unwrap();
    let mut twice = fresh_state();
    twice.apply_update(&update).unwrap();
    twice.apply_update(&update).unwrap();
    assert_eq!(observe(&once), observe(&twice));
}

#[test]
fn update_merges_by_outpoint_without_duplicates() {
    let mut state = fresh_state();
    state
        .apply_update(&ChainUpdate { records: vec![record(7, 1_000, 0, None, false)] })
        .unwrap();
    // the same outpoint confirms later: replaced, not duplicated
    state
        .apply_update(&ChainUpdate { records: vec![record(7, 1_000, 0, Some(120), false)] })
        .unwrap();
    assert_eq!(state.coins.len(), 1);
    assert_eq!(state.coins[0].confirmation_height, Some(120));
    // and is removed once spent on chain
    state
        .apply_update(&ChainUpdate { records: vec![record(7, 1_000, 0, Some(120), true)] })
        .unwrap();
    assert!(state.coins.is_empty());
}

#[test]
fn update_advances_revealed_indices() {
    let mut state = fresh_state();
    state
        .apply_update(&ChainUpdate { records: vec![record(1, 10, 4, None, false)] })
        .unwrap();
    assert_eq!(state.next_external_index, 5);
    // a lower index never moves it back
    state
        .apply_update(&ChainUpdate { records: vec![record(2, 10, 1, None, false)] })
        .unwrap();
    assert_eq!(state.next_external_index, 5);
}

#[test]
fn update_beyond_total_supply_is_fatal_and_ignored() {
    let mut state = fresh_state();
    let update = ChainUpdate {
        records: vec![
            record(1, 2_000_000_000_000_000, 0, None, false),
            record(2, 2_000_000_000_000_000, 1, None, false),
        ],
    };
    let err = state.apply_update(&update).unwrap_err();
    assert_eq!(err.kind, ErrorKind::Fatal);
    assert!(state.coins.is_empty());
}

#[test]
fn worker_terminates_when_channel_closes() {
    let mut guard = Guard::new(fresh_state());
    let step = worker_step(&mut guard, None, true, true);
    assert!(matches!(step, WorkerStep::Terminated));
}

#[test]
fn worker_applies_and_persists_an_update() {
    let mut guard = Guard::new(fresh_state());
    let update = ChainUpdate { records: vec![record(1, 1_000, 0, Some(9), false)] };
    let step = worker_step(&mut guard, Some(&update), true, true);
    assert!(matches!(step, WorkerStep::Applied));
    assert_eq!(guard.state.coins.len(), 1);
}

#[test]
fn worker_escalates_watch_and_persist_failures() {
    let mut guard = Guard::new(fresh_state());
    let update = ChainUpdate { records: vec![record(1, 1_000, 0, Some(9), false)] };
    let step = worker_step(&mut guard, Some(&update), false, true);
    assert!(matches!(step, WorkerStep::Fatal));
    assert!(guard.state.coins.is_empty());
    let step = worker_step(&mut guard, Some(&update), true, false);
    assert!(matches!(step, WorkerStep::Fatal));
    assert!(guard.state.coins.is_empty());
}

#[test]
fn coordinator_delivers_the_signal_once() {
    let mut c = ShutdownCoordinator::new();
    assert!(!c.try_observe());
    c.signal();
    c.signal();
    assert!(c.try_observe());
    assert!(!c.try_observe());
    c.signal();
    assert!(!c.try_observe());
}

#[test]
fn serve_loop_drains_then_exits_after_stop() {
    let mut l = ServeLoop::new();
    assert!(l.try_admit());
    assert!(l.try_admit());
    l.initiate_stop();
    // stop admits nothing new, mutating or otherwise
    assert!(!l.try_admit());
    assert!(!l.may_exit());
    l.complete();
    assert!(!l.may_exit());
    l.complete();
    assert!(l.may_exit());
}

#[test]
fn network_names_parse_as_documented() {
    assert_eq!(parse_network("bitcoin"), Some(Network::Bitcoin));
    assert_eq!(parse_network("testnet"), Some(Network::Testnet));
    assert_eq!(parse_network("testnet4"), Some(Network::Testnet4));
    assert_eq!(parse_network("signet"), Some(Network::Signet));
    assert_eq!(parse_network("regtest"), Some(Network::Regtest));
    assert_eq!(parse_network("mainnet"), None);
    assert_eq!(parse_network(""), None);
}

#[test]
fn config_defaults_fill_missing_fields() {
    let c = resolve_config(None, "r".to_string(), "c".to_string(), None, None, None);
    assert_eq!(c.network, Network::Signet);
    assert_eq!(c.lookahead, 30);
    assert_eq!(c.connections, 2);
    assert_eq!(c.birthday, None);
    let c = resolve_config(
        Some(Network::Regtest),
        "r".to_string(),
        "c".to_string(),
        Some(5),
        Some(800_000),
        Some(8),
    );
    assert_eq!(c.network, Network::Regtest);
    assert_eq!(c.lookahead, 5);
    assert_eq!(c.birthday, Some(800_000));
    assert_eq!(c.connections, 8);
}

#[test]
fn decimal_rendering_is_exact() {
    assert_eq!(u64_to_dec(0), "0");
    assert_eq!(u64_to_dec(7), "7");
    assert_eq!(u64_to_dec(100000), "100000");
    assert_eq!(u64_to_dec(u64::MAX), "18446744073709551615");
}

#[test]
fn btc_rendering_trims_trailing_zeros() {
    assert_eq!(btc_string(0), "0");
    assert_eq!(btc_string(100_000_000), "1");
    assert_eq!(btc_string(150_000_000), "1.5");
    assert_eq!(btc_string(100_000), "0.001");
    assert_eq!(btc_string(1), "0.00000001");
    assert_eq!(btc_string(100_000_001), "1.00000001");
    assert_eq!(btc_string(2_100_000_000_000_000), "21000000");
}

#[test]
fn padding_aligns_columns() {
    assert_eq!(pad_right("ab".to_string(), 5), "ab   ");
    assert_eq!(pad_right("abcdef".to_string(), 5), "abcdef");
    assert_eq!(pad_left("ab".to_string(), 5), "   ab");
    assert_eq!(pad_left("abcdef".to_string(), 5), "abcdef");
}

#[test]
fn feerate_boundary_matches_weight_conversion() {
    // largest rate whose conversion to weight units fits, and one past it
    let mut state = fresh_state();
    state.coins = vec![Coin {
        outpoint: 1,
        value_sat: 5000,
        keychain: Keychain::External,
        derivation_index: 0,
        confirmation_height: Some(5),
    }];
    state.next_external_index = 1;
    let mut svc = kyotod::service::WalletService::new(Guard::new(state), ShutdownCoordinator::new());
    let dest = "tb1qw508d6qejxtdg4y5r3zarvary0c5xw7kxpjzsx";
    let limit = u64::MAX / 250;
    assert!(svc.create_psbt(dest, 1000, limit, true, true).is_ok());
    let err = svc.create_psbt(dest, 1000, limit + 1, true, true).unwrap_err();
    assert_eq!(err.message, "Invalid fee rate");
}
