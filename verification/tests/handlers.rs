use kyotod::guard::Guard;
use kyotod::service::{broadcast_reply, BroadcastOutcome, WalletService};
use kyotod::shutdown::ShutdownCoordinator;
use kyotod::state::WalletState;
use kyotod::types::{Coin, Keychain, Network};

fn coin(outpoint: u64, value_sat: u64, index: u32, height: Option<u32>) -> Coin {
    Coin {
        outpoint,
        value_sat,
        keychain: Keychain::External,
        derivation_index: index,
        confirmation_height: height,
    }
}

fn service_with(coins: Vec<Coin>) -> WalletService {
    let next = coins.iter().map(|c| c.derivation_index + 1).max().unwrap_or(0);
    let state = WalletState {
        coins,
        reserved: Vec::new(),
        next_external_index: next,
        next_internal_index: 0,
        receive_descriptor: "wpkh(receive)".to_string(),
        change_descriptor: "wpkh(change)".to_string(),
        network: Network::Signet,
    };
    WalletService::new(Guard::new(state), ShutdownCoordinator::new())
}

#[test]
fn balance_satoshi_verbose_exact() {
    let svc = service_with(vec![coin(1, 100_000, 0, Some(50))]);
    let s = svc.balance(true, true);
    assert_eq!(
        s,
        "Total: 100000           SAT, Confirmed: 100000           SAT, Unconfirmed: 0                SAT"
    );
    assert!(s.contains("Total: 100000"));
    assert!(s.contains("Confirmed: 100000"));
    assert!(s.contains("Unconfirmed: 0"));
}

#[test]
fn balance_btc_terse_is_total_only() {
    let svc = service_with(vec![coin(1, 100_000, 0, Some(50))]);
    let s = svc.balance(false, false);
    assert_eq!(s, "0.001            BTC");
    assert!(!s.contains("Confirmed"));
    assert!(!s.contains("Unconfirmed"));
}

#[test]
fn balance_counts_unconfirmed_separately() {
    let svc = service_with(vec![
        coin(1, 70_000, 0, Some(10)),
        coin(2, 30_000, 1, None),
    ]);
    let s = svc.balance(true, true);
    assert_eq!(
        s,
        "Total: 100000           SAT, Confirmed: 70000            SAT, Unconfirmed: 30000            SAT"
    );
}

#[test]
fn coins_value_threshold_is_strict() {
    let svc = service_with(vec![
        coin(1, 1000, 0, Some(5)),
        coin(2, 1001, 1, Some(5)),
    ]);
    let lines = svc.coins(true, 1000, 0);
    assert_eq!(lines.len(), 1);
    assert!(lines[0].starts_with("1001"));
}

#[test]
fn coins_height_threshold_is_strict() {
    let svc = service_with(vec![
        coin(1, 5000, 0, Some(100)),
        coin(2, 6000, 1, Some(101)),
    ]);
    let lines = svc.coins(true, 0, 100);
    assert_eq!(lines.len(), 1);
    assert!(lines[0].contains("confirmed at     101"));
}

#[test]
fn coins_unconfirmed_pass_height_filter() {
    let svc = service_with(vec![
        coin(1, 5000, 0, Some(40)),
        coin(2, 6000, 1, None),
    ]);
    let lines = svc.coins(true, 0, 1000);
    assert_eq!(lines.len(), 1);
    assert!(lines[0].contains("unconfirmed"));
}

#[test]
fn coin_line_layout_matches_columns() {
    let svc = service_with(vec![coin(1, 1234, 7, Some(4321))]);
    let lines = svc.coins(true, 0, 0);
    assert_eq!(lines, vec!["1234             SAT  receive/7   confirmed at    4321"]);
}

#[test]
fn descriptors_returned_verbatim() {
    let svc = service_with(vec![]);
    let (recv, chg) = svc.descriptors();
    assert_eq!(recv, "wpkh(receive)");
    assert_eq!(chg, "wpkh(change)");
}

#[test]
fn next_address_increments_and_persists() {
    let mut svc = service_with(vec![]);
    let a = svc.next_address(true).unwrap();
    let b = svc.next_address(true).unwrap();
    assert_eq!(a, 0);
    assert_eq!(b, 1);
}

#[test]
fn next_address_monotonic_across_restart() {
    let mut svc = service_with(vec![]);
    let a = svc.next_address(true).unwrap();
    // the persisted record is the source of truth: reload it
    let restarted = svc.guard.restart();
    let mut svc2 = WalletService::new(restarted, ShutdownCoordinator::new());
    let b = svc2.next_address(true).unwrap();
    assert!(b > a);
}

#[test]
fn next_address_persist_failure_rolls_back() {
    let mut svc = service_with(vec![]);
    let err = svc.next_address(false).unwrap_err();
    assert_eq!(err.kind, kyotod::types::ErrorKind::Resource);
    // the failed reveal did not burn the index
    let a = svc.next_address(true).unwrap();
    assert_eq!(a, 0);
}

#[test]
fn builds_never_reserve_the_same_coin() {
    let mut svc = service_with(vec![
        coin(1, 600, 0, Some(5)),
        coin(2, 600, 1, Some(5)),
        coin(3, 600, 2, Some(6)),
        coin(4, 600, 3, None),
    ]);
    let dest = "tb1qw508d6qejxtdg4y5r3zarvary0c5xw7kxpjzsx";
    let (_, ids1) = svc.create_psbt(dest, 1000, 2, true, true).unwrap();
    let (_, ids2) = svc.create_psbt(dest, 1000, 2, true, true).unwrap();
    assert!(!ids1.is_empty() && !ids2.is_empty());
    for id in &ids1 {
        assert!(!ids2.contains(id));
    }
}

#[test]
fn drain_after_payment_takes_only_the_rest() {
    let mut svc = service_with(vec![
        coin(1, 600, 0, Some(5)),
        coin(2, 600, 1, Some(5)),
        coin(3, 600, 2, Some(6)),
    ]);
    let dest = "tb1qw508d6qejxtdg4y5r3zarvary0c5xw7kxpjzsx";
    let (_, ids1) = svc.create_psbt(dest, 600, 2, true, true).unwrap();
    let (_, ids2) = svc.drain_psbt(dest, 2, true, true).unwrap();
    for id in &ids1 {
        assert!(!ids2.contains(id));
    }
    assert_eq!(ids1.len() + ids2.len(), 3);
}

#[test]
fn drain_on_empty_wallet_is_invalid_input() {
    let mut svc = service_with(vec![]);
    let dest = "tb1qw508d6qejxtdg4y5r3zarvary0c5xw7kxpjzsx";
    let err = svc.drain_psbt(dest, 2, true, true).unwrap_err();
    assert_eq!(err.kind, kyotod::types::ErrorKind::InvalidInput);
    assert_eq!(err.message, "Could not create PSBT: no spendable outputs");
}

#[test]
fn build_with_insufficient_funds_is_refused() {
    let mut svc = service_with(vec![coin(1, 500, 0, Some(5))]);
    let dest = "tb1qw508d6qejxtdg4y5r3zarvary0c5xw7kxpjzsx";
    let err = svc.create_psbt(dest, 1000, 2, true, true).unwrap_err();
    assert_eq!(err.message, "Could not create PSBT: insufficient funds");
}

#[test]
fn build_with_huge_feerate_is_invalid() {
    let mut svc = service_with(vec![coin(1, 5000, 0, Some(5))]);
    let dest = "tb1qw508d6qejxtdg4y5r3zarvary0c5xw7kxpjzsx";
    let err = svc.create_psbt(dest, 1000, u64::MAX, true, true).unwrap_err();
    assert_eq!(err.kind, kyotod::types::ErrorKind::InvalidInput);
    assert_eq!(err.message, "Invalid fee rate");
}

#[test]
fn build_to_gibberish_address_is_invalid() {
    let mut svc = service_with(vec![coin(1, 5000, 0, Some(5))]);
    let err = svc.create_psbt("not-an-address", 1000, 2, true, true).unwrap_err();
    assert_eq!(err.kind, kyotod::types::ErrorKind::InvalidInput);
    assert!(err.message.starts_with("Invalid address "));
}

#[test]
fn build_to_wrong_network_address_is_invalid() {
    // a mainnet address offered to a signet wallet
    let mut svc = service_with(vec![coin(1, 5000, 0, Some(5))]);
    let err = svc
        .create_psbt("bc1qw508d6qejxtdg4y5r3zarvary0c5xw7kv8f3t4", 1000, 2, true, true)
        .unwrap_err();
    assert!(err.message.starts_with("Wrong network: "));
}

#[test]
fn build_artifact_failure_reserves_nothing() {
    let mut svc = service_with(vec![coin(1, 5000, 0, Some(5))]);
    let dest = "tb1qw508d6qejxtdg4y5r3zarvary0c5xw7kxpjzsx";
    let err = svc.create_psbt(dest, 1000, 2, false, true).unwrap_err();
    assert_eq!(err.message, "Could not create file for PSBT");
    // the coin is still spendable
    let (_, ids) = svc.create_psbt(dest, 1000, 2, true, true).unwrap();
    assert_eq!(ids, vec![1]);
}

#[test]
fn build_persist_failure_reserves_nothing() {
    let mut svc = service_with(vec![coin(1, 5000, 0, Some(5))]);
    let dest = "tb1qw508d6qejxtdg4y5r3zarvary0c5xw7kxpjzsx";
    let err = svc.create_psbt(dest, 1000, 2, true, false).unwrap_err();
    assert_eq!(err.kind, kyotod::types::ErrorKind::Resource);
    let (_, ids) = svc.create_psbt(dest, 1000, 2, true, true).unwrap();
    assert_eq!(ids, vec![1]);
}

#[test]
fn reserved_coins_leave_balance_and_listing() {
    let mut svc = service_with(vec![coin(1, 5000, 0, Some(5)), coin(2, 700, 1, Some(6))]);
    let dest = "tb1qw508d6qejxtdg4y5r3zarvary0c5xw7kxpjzsx";
    let (_, ids) = svc.create_psbt(dest, 4000, 2, true, true).unwrap();
    assert_eq!(ids, vec![1]);
    assert_eq!(svc.balance(true, false), "700              SAT");
    assert_eq!(svc.coins(true, 0, 0).len(), 1);
}

#[test]
fn is_mine_invalid_address_is_an_answer_not_an_error() {
    let svc = service_with(vec![]);
    let v = svc.check_wallet_address("certainly not an address");
    let reply = WalletService::is_mine_reply(&v, false);
    assert!(reply.starts_with("Invalid address: "));
}

#[test]
fn is_mine_wrong_network_is_an_answer() {
    let svc = service_with(vec![]);
    let v = svc.check_wallet_address("bc1qw508d6qejxtdg4y5r3zarvary0c5xw7kv8f3t4");
    let reply = WalletService::is_mine_reply(&v, false);
    assert!(reply.starts_with("Invalid address: "));
}

#[test]
fn is_mine_valid_address_answers_plainly() {
    let svc = service_with(vec![]);
    let v = svc.check_wallet_address("tb1qw508d6qejxtdg4y5r3zarvary0c5xw7kxpjzsx");
    assert!(matches!(v, kyotod::addr::AddrValidation::Valid { .. }));
    assert_eq!(WalletService::is_mine_reply(&v, true), "true");
    assert_eq!(WalletService::is_mine_reply(&v, false), "false");
}

#[test]
fn address_check_hands_back_a_script_not_the_input() {
    let svc = service_with(vec![]);
    let addr = "tb1qw508d6qejxtdg4y5r3zarvary0c5xw7kxpjzsx";
    match svc.check_wallet_address(addr) {
        kyotod::addr::AddrValidation::Valid { script } => {
            // a P2WPKH script: version 0 push and a 20-byte program
            assert_eq!(script.len(), 22);
            assert_eq!(script[0], 0x00);
            assert_eq!(script[1], 0x14);
            assert_ne!(script, addr.as_bytes());
        }
        other => panic!("expected a valid address, got {:?}", other),
    }
}

#[test]
fn broadcast_replies_follow_each_outcome() {
    assert_eq!(
        broadcast_reply(&BroadcastOutcome::Sent).unwrap(),
        "Successfully sent transaction over the wire"
    );
    let e = broadcast_reply(&BroadcastOutcome::OpenFailed("no such file".to_string()))
        .unwrap_err();
    assert_eq!(e.message, "Could not open PSBT: no such file");
    assert_eq!(e.kind, kyotod::types::ErrorKind::Resource);
    let e = broadcast_reply(&BroadcastOutcome::DeserializeFailed("bad magic".to_string()))
        .unwrap_err();
    assert_eq!(e.message, "Could not deserialize PSBT: bad magic");
    assert_eq!(e.kind, kyotod::types::ErrorKind::Protocol);
    let e = broadcast_reply(&BroadcastOutcome::FinalizeFailed("missing key".to_string()))
        .unwrap_err();
    assert_eq!(e.message, "Could not finalize PSBT: missing key");
    let e = broadcast_reply(&BroadcastOutcome::NotFinalized).unwrap_err();
    assert_eq!(e.message, "PSBT finalization failed");
    let e = broadcast_reply(&BroadcastOutcome::ExtractFailed("fee too high".to_string()))
        .unwrap_err();
    assert_eq!(e.message, "Could not extract transaction: fee too high");
    let e = broadcast_reply(&BroadcastOutcome::SendFailed).unwrap_err();
    assert_eq!(e.message, "Failed to broadcast transaction");
}

#[test]
fn stop_signals_once_and_stays_signaled() {
    let mut svc = service_with(vec![]);
    assert!(!svc.shutdown.signaled);
    svc.stop();
    assert!(svc.shutdown.signaled);
    svc.stop();
    assert!(svc.shutdown.signaled);
}
