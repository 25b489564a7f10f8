//! The request handlers: one per exposed operation. Each acquires the
//! guard — here, the exclusive borrow — for the minimum span, computes
//! its reply, and states exactly what it answers on every input.

use vstd::prelude::*;
use vstd::string::StringExecFns;

use crate::addr::{
    addr_network_ok, addr_parses, check_address, feerate_is_valid, AddrValidation,
};
use crate::format::{
    balance_reply, coin_line, spec_balance_reply, spec_coin_line,
};
use crate::guard::Guard;
use crate::shutdown::ShutdownCoordinator;
use crate::state::{
    avail_ids, lemma_balance_parts, lemma_sum_le_total, select_from, spec_confirmed_balance,
    spec_select, spec_unconfirmed_balance, StateModel,
};
use crate::types::{Coin, ErrorKind, ErrorResponse};

verus! {

/// Whether `s` begins with `p`.
pub open spec fn starts_with(s: Seq<char>, p: Seq<char>) -> bool {
    s.len() >= p.len() && s.take(p.len() as int) == p
}

/// A fee rate the transaction builder accepts: converting it to weight
/// units must not overflow.
pub open spec fn spec_feerate_ok(f: u64) -> bool {
    f <= u64::MAX / 250
}

/// Whether the listing shows a coin: unreserved, strictly above the value
/// threshold, and, when its confirmation height is known, strictly above
/// the height threshold; unconfirmed coins pass the height filter.
pub open spec fn coin_passes(c: Coin, reserved: Seq<u64>, sat_t: u64, height_t: u32) -> bool {
    &&& !reserved.contains(c.outpoint)
    &&& c.value_sat > sat_t
    &&& match c.confirmation_height {
        Some(h) => h > height_t,
        None => true,
    }
}

/// The listed coins, in wallet order, rendered.
pub open spec fn spec_coin_list(
    coins: Seq<Coin>,
    reserved: Seq<u64>,
    sat_t: u64,
    height_t: u32,
    in_satoshis: bool,
) -> Seq<Seq<char>>
    decreases coins.len(),
{
    if coins.len() == 0 {
        Seq::empty()
    } else if coin_passes(coins.last(), reserved, sat_t, height_t) {
        spec_coin_list(coins.drop_last(), reserved, sat_t, height_t, in_satoshis).push(
            spec_coin_line(coins.last(), in_satoshis),
        )
    } else {
        spec_coin_list(coins.drop_last(), reserved, sat_t, height_t, in_satoshis)
    }
}

/// The listing, one prefix step at a time.
pub proof fn lemma_coin_list_take_step(
    coins: Seq<Coin>,
    reserved: Seq<u64>,
    sat_t: u64,
    height_t: u32,
    in_satoshis: bool,
    i: int,
)
    requires
        0 <= i < coins.len(),
    ensures
        spec_coin_list(coins.take(i + 1), reserved, sat_t, height_t, in_satoshis)
            == if coin_passes(coins[i], reserved, sat_t, height_t) {
            spec_coin_list(coins.take(i), reserved, sat_t, height_t, in_satoshis).push(
                spec_coin_line(coins[i], in_satoshis),
            )
        } else {
            spec_coin_list(coins.take(i), reserved, sat_t, height_t, in_satoshis)
        },
{
    assert(coins.take(i + 1).drop_last() =~= coins.take(i));
    assert(coins.take(i + 1).last() == coins[i]);
}

/// One step of the broadcast pipeline gone wrong, or its success: the
/// artifact could not be opened or parsed, signing left it incomplete,
/// the final transaction could not be extracted, or the gateway refused
/// it. The file, signing and network work is outside; this type carries
/// its outcome into the verified reply.
pub enum BroadcastOutcome {
    OpenFailed(String),
    DeserializeFailed(String),
    FinalizeFailed(String),
    NotFinalized,
    ExtractFailed(String),
    SendFailed,
    Sent,
}

/// The daemon service: the guarded wallet and the shutdown signal path.
pub struct WalletService {
    /// Guards the single shared wallet state.
    pub guard: Guard,
    /// The stop handler's signal path to the serve loop.
    pub shutdown: ShutdownCoordinator,
}

impl WalletService {
    /// Assembles the service from its two shared resources.
    pub fn new(guard: Guard, shutdown: ShutdownCoordinator) -> (s: WalletService)
        ensures
            s.guard == guard,
            s.shutdown == shutdown,
    {
        WalletService { guard, shutdown }
    }

    /// The balance handler: a read-only hold of the guard, answering the
    /// confirmed and unconfirmed balances in the requested form.
    pub fn balance(&self, in_satoshis: bool, verbose: bool) -> (r: String)
        requires
            self.guard.wf(),
        ensures
            r@ == spec_balance_reply(
                spec_confirmed_balance(self.guard.model()) as nat,
                spec_unconfirmed_balance(self.guard.model()) as nat,
                in_satoshis,
                verbose,
            ),
    {
        proof {
            lemma_balance_parts(self.guard.model());
            lemma_sum_le_total(
                self.guard.state.coins@,
                |c: Coin| !self.guard.state.reserved@.contains(c.outpoint),
            );
        }
        let confirmed = self.guard.state.confirmed_balance();
        let unconfirmed = self.guard.state.unconfirmed_balance();
        balance_reply(confirmed, unconfirmed, in_satoshis, verbose)
    }

    /// The list-coins handler: a read-only hold of the guard, answering
    /// one line per unreserved coin strictly above the value threshold
    /// and, if confirmed, strictly above the height threshold.
    pub fn coins(&self, in_satoshis: bool, sat_threshold: u64, height_threshold: u32) -> (r: Vec<
        String,
    >)
        requires
            self.guard.wf(),
        ensures
            r@.map_values(|s: String| s@) == spec_coin_list(
                self.guard.model().coins,
                self.guard.model().reserved,
                sat_threshold,
                height_threshold,
                in_satoshis,
            ),
    {
        let coins = &self.guard.state.coins;
        let reserved = &self.guard.state.reserved;
        let mut out: Vec<String> = Vec::new();
        let mut i: usize = 0;
        while i < coins.len()
            invariant
                0 <= i <= coins@.len(),
                out@.map_values(|s: String| s@) == spec_coin_list(
                    coins@.take(i as int),
                    reserved@,
                    sat_threshold,
                    height_threshold,
                    in_satoshis,
                ),
            decreases coins@.len() - i,
        {
            proof {
                lemma_coin_list_take_step(
                    coins@,
                    reserved@,
                    sat_threshold,
                    height_threshold,
                    in_satoshis,
                    i as int,
                );
            }
            let c = coins[i];
            let passes_height = match c.confirmation_height {
                Some(h) => h > height_threshold,
                None => true,
            };
            if c.value_sat > sat_threshold && passes_height && !crate::state::contains_u64(
                reserved,
                c.outpoint,
            ) {
                let line = coin_line(&c, in_satoshis);
                out.push(line);
                proof {
                    assert(out@.map_values(|s: String| s@) =~= spec_coin_list(
                        coins@.take(i as int + 1),
                        reserved@,
                        sat_threshold,
                        height_threshold,
                        in_satoshis,
                    ));
                }
            } else {
                proof {
                    assert(out@.map_values(|s: String| s@) =~= spec_coin_list(
                        coins@.take(i as int + 1),
                        reserved@,
                        sat_threshold,
                        height_threshold,
                        in_satoshis,
                    ));
                }
            }
            i += 1;
        }
        proof {
            assert(coins@.take(coins@.len() as int) =~= coins@);
        }
        out
    }

    /// The list-descriptors handler: the two public descriptors.
    pub fn descriptors(&self) -> (r: (String, String))
        ensures
            r.0@ == self.guard.model().receive_descriptor,
            r.1@ == self.guard.model().change_descriptor,
    {
        (self.guard.state.receive_descriptor.clone(), self.guard.state.change_descriptor.clone())
    }

    /// The next-address handler: reveals and persists the next receiving
    /// index under one exclusive hold; the caller derives the address for
    /// it from the receiving descriptor.
    pub fn next_address(&mut self, persist_ok: bool) -> (r: Result<u32, ErrorResponse>)
        requires
            old(self).guard.wf(),
            old(self).guard.model().next_external < u32::MAX,
        ensures
            final(self).guard.wf(),
            final(self).shutdown == old(self).shutdown,
            match r {
                Ok(idx) => {
                    &&& persist_ok
                    &&& idx as int == old(self).guard.model().next_external
                    &&& final(self).guard.model() == (StateModel {
                        next_external: old(self).guard.model().next_external + 1,
                        ..old(self).guard.model()
                    })
                },
                Err(e) => {
                    &&& !persist_ok
                    &&& e.kind == ErrorKind::Resource
                    &&& final(self).guard == old(self).guard
                },
            },
    {
        self.guard.next_address_section(persist_ok)
    }

    /// The address-ownership validation: parses the address and checks
    /// it against the wallet's configured network. A bad string is an
    /// answer, never a failure.
    pub fn check_wallet_address(&self, address: &str) -> (r: AddrValidation)
        ensures
            match r {
                AddrValidation::Invalid { .. } => !addr_parses(address@),
                AddrValidation::WrongNetwork { .. } => addr_parses(address@) && !addr_network_ok(
                    address@,
                    self.guard.model().network,
                ),
                AddrValidation::Valid { script } => addr_parses(address@) && addr_network_ok(
                    address@,
                    self.guard.model().network,
                ) && script@ == crate::addr::addr_script(address@),
            },
    {
        check_address(address, self.guard.state.network)
    }

    /// The ownership reply: for a malformed or wrong-network address an
    /// explanatory text, otherwise the plain yes or no the wallet's
    /// script index answered.
    pub fn is_mine_reply(v: &AddrValidation, owned: bool) -> (r: String)
        ensures
            match v {
                AddrValidation::Invalid { message } => r@ == "Invalid address: "@ + message@,
                AddrValidation::WrongNetwork { message } => r@ == "Invalid address: "@ + message@,
                AddrValidation::Valid { .. } => r@ == (if owned {
                    "true"@
                } else {
                    "false"@
                }),
            },
    {
        match v {
            AddrValidation::Invalid { message } => {
                let mut s = String::from_str("Invalid address: ");
                s.append(message.as_str());
                s
            },
            AddrValidation::WrongNetwork { message } => {
                let mut s = String::from_str("Invalid address: ");
                s.append(message.as_str());
                s
            },
            AddrValidation::Valid { .. } => {
                if owned {
                    String::from_str("true")
                } else {
                    String::from_str("false")
                }
            },
        }
    }

    /// The payment builder: validates the fee rate and the destination,
    /// then, under one exclusive hold of the guard, selects and reserves
    /// coins covering the requested value, writes the unsigned-transaction
    /// artifact and persists the reservation — so no two builds can ever
    /// reserve the same coin. `artifact_ok` and `persist_ok` carry the
    /// outcome of the file write and the store write; when either fails
    /// the reservation is abandoned whole.
    pub fn create_psbt(
        &mut self,
        address: &str,
        sats: u64,
        feerate: u64,
        artifact_ok: bool,
        persist_ok: bool,
    ) -> (r: Result<(String, Vec<u64>), ErrorResponse>)
        requires
            old(self).guard.wf(),
        ensures
            final(self).guard.wf(),
            final(self).shutdown == old(self).shutdown,
            r is Err ==> final(self).guard == old(self).guard,
            ({
                let m = old(self).guard.model();
                match r {
                    Ok((msg, ids)) => {
                        &&& spec_feerate_ok(feerate)
                        &&& addr_parses(address@)
                        &&& addr_network_ok(address@, m.network)
                        &&& spec_select(m.coins, m.reserved, sats as int) == Some(ids@)
                        &&& artifact_ok && persist_ok
                        &&& final(self).guard.model() == (StateModel {
                            reserved: m.reserved + ids@,
                            ..m
                        })
                        &&& msg@ == "Successfully created PSBT at `unsigned_transaction.psbt`"@
                    },
                    Err(e) => {
                        &&& (!spec_feerate_ok(feerate) ==> e.kind == ErrorKind::InvalidInput
                            && e.message@ == "Invalid fee rate"@)
                        &&& (spec_feerate_ok(feerate) && !addr_parses(address@) ==> e.kind
                            == ErrorKind::InvalidInput && starts_with(
                            e.message@,
                            "Invalid address "@,
                        ))
                        &&& (spec_feerate_ok(feerate) && addr_parses(address@)
                            && !addr_network_ok(address@, m.network) ==> e.kind
                            == ErrorKind::InvalidInput && starts_with(
                            e.message@,
                            "Wrong network: "@,
                        ))
                        &&& (spec_feerate_ok(feerate) && addr_parses(address@)
                            && addr_network_ok(address@, m.network) ==> {
                            &&& (spec_select(m.coins, m.reserved, sats as int) is None ==> e.kind
                                == ErrorKind::InvalidInput && e.message@
                                == "Could not create PSBT: insufficient funds"@)
                            &&& (spec_select(m.coins, m.reserved, sats as int) is Some
                                && !artifact_ok ==> e.kind == ErrorKind::Resource && e.message@
                                == "Could not create file for PSBT"@)
                            &&& (spec_select(m.coins, m.reserved, sats as int) is Some
                                && artifact_ok ==> !persist_ok && e.kind == ErrorKind::Resource)
                        })
                    },
                }
            }),
    {
        if !feerate_is_valid(feerate) {
            return Err(
                ErrorResponse {
                    kind: ErrorKind::InvalidInput,
                    message: String::from_str("Invalid fee rate"),
                },
            );
        }
        match check_address(address, self.guard.state.network) {
            AddrValidation::Invalid { message } => {
                let mut s = String::from_str("Invalid address ");
                s.append(message.as_str());
                proof {
                    assert(s@.take("Invalid address "@.len() as int) =~= "Invalid address "@);
                }
                return Err(ErrorResponse { kind: ErrorKind::InvalidInput, message: s });
            },
            AddrValidation::WrongNetwork { message } => {
                let mut s = String::from_str("Wrong network: ");
                s.append(message.as_str());
                proof {
                    assert(s@.take("Wrong network: "@.len() as int) =~= "Wrong network: "@);
                }
                return Err(ErrorResponse { kind: ErrorKind::InvalidInput, message: s });
            },
            AddrValidation::Valid { .. } => {},
        }
        proof {
            assert(self.guard.state.coins@.skip(0) =~= self.guard.state.coins@);
        }
        if select_from(&self.guard.state.coins, 0, &self.guard.state.reserved, sats).is_none() {
            return Err(
                ErrorResponse {
                    kind: ErrorKind::InvalidInput,
                    message: String::from_str("Could not create PSBT: insufficient funds"),
                },
            );
        }
        if !artifact_ok {
            return Err(
                ErrorResponse {
                    kind: ErrorKind::Resource,
                    message: String::from_str("Could not create file for PSBT"),
                },
            );
        }
        match self.guard.reserve_payment_section(sats, persist_ok) {
            Ok(ids) => Ok(
                (String::from_str("Successfully created PSBT at `unsigned_transaction.psbt`"), ids),
            ),
            Err(e) => Err(e),
        }
    }

    /// The drain builder: validates the fee rate and the destination,
    /// then reserves every unreserved coin under one exclusive hold,
    /// writes the artifact and persists, as the payment builder does.
    pub fn drain_psbt(
        &mut self,
        address: &str,
        feerate: u64,
        artifact_ok: bool,
        persist_ok: bool,
    ) -> (r: Result<(String, Vec<u64>), ErrorResponse>)
        requires
            old(self).guard.wf(),
        ensures
            final(self).guard.wf(),
            final(self).shutdown == old(self).shutdown,
            r is Err ==> final(self).guard == old(self).guard,
            ({
                let m = old(self).guard.model();
                match r {
                    Ok((msg, ids)) => {
                        &&& spec_feerate_ok(feerate)
                        &&& addr_parses(address@)
                        &&& addr_network_ok(address@, m.network)
                        &&& ids@ == avail_ids(m.coins, m.reserved)
                        &&& ids@.len() > 0
                        &&& artifact_ok && persist_ok
                        &&& final(self).guard.model() == (StateModel {
                            reserved: m.reserved + ids@,
                            ..m
                        })
                        &&& msg@ == "Successfully created PSBT at `unsigned_transaction.psbt`"@
                    },
                    Err(e) => {
                        &&& (!spec_feerate_ok(feerate) ==> e.kind == ErrorKind::InvalidInput
                            && e.message@ == "Invalid fee rate"@)
                        &&& (spec_feerate_ok(feerate) && !addr_parses(address@) ==> e.kind
                            == ErrorKind::InvalidInput && starts_with(
                            e.message@,
                            "Invalid address "@,
                        ))
                        &&& (spec_feerate_ok(feerate) && addr_parses(address@)
                            && !addr_network_ok(address@, m.network) ==> e.kind
                            == ErrorKind::InvalidInput && starts_with(
                            e.message@,
                            "Wrong network: "@,
                        ))
                        &&& (spec_feerate_ok(feerate) && addr_parses(address@)
                            && addr_network_ok(address@, m.network) ==> {
                            &&& (avail_ids(m.coins, m.reserved).len() == 0 ==> e.kind
                                == ErrorKind::InvalidInput && e.message@
                                == "Could not create PSBT: no spendable outputs"@)
                            &&& (avail_ids(m.coins, m.reserved).len() > 0 && !artifact_ok
                                ==> e.kind == ErrorKind::Resource && e.message@
                                == "Could not create file for PSBT"@)
                            &&& (avail_ids(m.coins, m.reserved).len() > 0 && artifact_ok
                                ==> !persist_ok && e.kind == ErrorKind::Resource)
                        })
                    },
                }
            }),
    {
        if !feerate_is_valid(feerate) {
            return Err(
                ErrorResponse {
                    kind: ErrorKind::InvalidInput,
                    message: String::from_str("Invalid fee rate"),
                },
            );
        }
        match check_address(address, self.guard.state.network) {
            AddrValidation::Invalid { message } => {
                let mut s = String::from_str("Invalid address ");
                s.append(message.as_str());
                proof {
                    assert(s@.take("Invalid address "@.len() as int) =~= "Invalid address "@);
                }
                return Err(ErrorResponse { kind: ErrorKind::InvalidInput, message: s });
            },
            AddrValidation::WrongNetwork { message } => {
                let mut s = String::from_str("Wrong network: ");
                s.append(message.as_str());
                proof {
                    assert(s@.take("Wrong network: "@.len() as int) =~= "Wrong network: "@);
                }
                return Err(ErrorResponse { kind: ErrorKind::InvalidInput, message: s });
            },
            AddrValidation::Valid { .. } => {},
        }
        let probe = self.guard.state.list_available();
        if probe.len() == 0 {
            return Err(
                ErrorResponse {
                    kind: ErrorKind::InvalidInput,
                    message: String::from_str("Could not create PSBT: no spendable outputs"),
                },
            );
        }
        if !artifact_ok {
            return Err(
                ErrorResponse {
                    kind: ErrorKind::Resource,
                    message: String::from_str("Could not create file for PSBT"),
                },
            );
        }
        match self.guard.reserve_drain_section(persist_ok) {
            Ok(ids) => Ok(
                (String::from_str("Successfully created PSBT at `unsigned_transaction.psbt`"), ids),
            ),
            Err(e) => Err(e),
        }
    }

    /// The stop handler: signals the shutdown coordinator exactly once;
    /// repeated stops change nothing further.
    pub fn stop(&mut self)
        ensures
            final(self).guard == old(self).guard,
            final(self).shutdown.signaled,
            final(self).shutdown.observed == old(self).shutdown.observed,
    {
        self.shutdown.signal();
    }
}

/// The broadcast handler's reply: each failed step of the pipeline is
/// reported with its reason; only a fully finalized, accepted
/// transaction is a success.
pub fn broadcast_reply(outcome: &BroadcastOutcome) -> (r: Result<String, ErrorResponse>)
    ensures
        match outcome {
            BroadcastOutcome::OpenFailed(m) => r is Err && r->Err_0.kind == ErrorKind::Resource
                && r->Err_0.message@ == "Could not open PSBT: "@ + m@,
            BroadcastOutcome::DeserializeFailed(m) => r is Err && r->Err_0.kind
                == ErrorKind::Protocol && r->Err_0.message@ == "Could not deserialize PSBT: "@
                + m@,
            BroadcastOutcome::FinalizeFailed(m) => r is Err && r->Err_0.kind
                == ErrorKind::Protocol && r->Err_0.message@ == "Could not finalize PSBT: "@ + m@,
            BroadcastOutcome::NotFinalized => r is Err && r->Err_0.kind == ErrorKind::Protocol
                && r->Err_0.message@ == "PSBT finalization failed"@,
            BroadcastOutcome::ExtractFailed(m) => r is Err && r->Err_0.kind
                == ErrorKind::Protocol && r->Err_0.message@ == "Could not extract transaction: "@
                + m@,
            BroadcastOutcome::SendFailed => r is Err && r->Err_0.kind == ErrorKind::Resource
                && r->Err_0.message@ == "Failed to broadcast transaction"@,
            BroadcastOutcome::Sent => r is Ok && r->Ok_0@
                == "Successfully sent transaction over the wire"@,
        },
{
    match outcome {
        BroadcastOutcome::OpenFailed(m) => {
            let mut s = String::from_str("Could not open PSBT: ");
            s.append(m.as_str());
            Err(ErrorResponse { kind: ErrorKind::Resource, message: s })
        },
        BroadcastOutcome::DeserializeFailed(m) => {
            let mut s = String::from_str("Could not deserialize PSBT: ");
            s.append(m.as_str());
            Err(ErrorResponse { kind: ErrorKind::Protocol, message: s })
        },
        BroadcastOutcome::FinalizeFailed(m) => {
            let mut s = String::from_str("Could not finalize PSBT: ");
            s.append(m.as_str());
            Err(ErrorResponse { kind: ErrorKind::Protocol, message: s })
        },
        BroadcastOutcome::NotFinalized => Err(
            ErrorResponse {
                kind: ErrorKind::Protocol,
                message: String::from_str("PSBT finalization failed"),
            },
        ),
        BroadcastOutcome::ExtractFailed(m) => {
            let mut s = String::from_str("Could not extract transaction: ");
            s.append(m.as_str());
            Err(ErrorResponse { kind: ErrorKind::Protocol, message: s })
        },
        BroadcastOutcome::SendFailed => Err(
            ErrorResponse {
                kind: ErrorKind::Resource,
                message: String::from_str("Failed to broadcast transaction"),
            },
        ),
        BroadcastOutcome::Sent => Ok(
            String::from_str("Successfully sent transaction over the wire"),
        ),
    }
}

} // verus!
