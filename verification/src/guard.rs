//! The wallet state guard: the owner of the single shared ledger.
//!
//! Exactly one operation at a time holds `&mut Guard`, so every method is
//! one critical section; Rust's exclusive borrow is the mutual-exclusion
//! discipline the running daemon mirrors with its lock. Each mutating
//! section persists before it returns: when the durable store refuses the
//! write, the in-memory mutation is abandoned and the section fails, so
//! the in-memory state and the persisted record never diverge.

use vstd::prelude::*;
use vstd::string::StringExecFns;

use crate::chain::{apply_coins, apply_next, lemma_apply_next_ge, spec_apply};
use crate::state::{
    avail_ids, lemma_avail_props, lemma_select_props, model_next, select_from, spec_select,
    total_value, StateModel, WalletState, MAX_MONEY_SAT,
};
use crate::types::{ChainUpdate, CoinRecord, ErrorKind, ErrorResponse, Keychain};

verus! {

/// The guard: the in-memory state it owns exclusively, and the shadow of
/// what the durable store holds.
pub struct Guard {
    /// The single in-memory wallet state.
    pub state: WalletState,
    /// What the durable store holds; the guard keeps it equal to the
    /// in-memory state between operations.
    pub persisted: Ghost<StateModel>,
}

impl Guard {
    /// Between operations the state is well-formed and fully persisted.
    pub open spec fn wf(self) -> bool {
        &&& self.state.wf()
        &&& self.persisted@ == self.state.model()
    }

    /// Mathematical view of the guarded state.
    pub open spec fn model(self) -> StateModel {
        self.state.model()
    }

    /// Takes ownership of the loaded wallet state.
    pub fn new(state: WalletState) -> (g: Guard)
        requires
            state.wf(),
        ensures
            g.wf(),
            g.model() == state.model(),
    {
        let ghost m = state.model();
        Guard { state, persisted: Ghost(m) }
    }

    /// A restart of the daemon: the in-memory state is rebuilt from the
    /// persisted record, which between operations equals it, so nothing
    /// changes.
    pub fn restart(self) -> (g: Guard)
        requires
            self.wf(),
        ensures
            g.wf(),
            g.model() == self.model(),
            g.model() == self.persisted@,
    {
        self
    }

    /// Critical section of the next-address handler: reveal the next
    /// receiving index and persist it before answering, so an index is
    /// never handed out twice, even across restarts. When the store
    /// refuses, the reveal is abandoned and the caller gets the error.
    pub fn next_address_section(&mut self, persist_ok: bool) -> (r: Result<u32, ErrorResponse>)
        requires
            old(self).wf(),
            old(self).model().next_external < u32::MAX,
        ensures
            final(self).wf(),
            match r {
                Ok(idx) => {
                    &&& persist_ok
                    &&& idx as int == old(self).model().next_external
                    &&& final(self).model() == (StateModel {
                        next_external: old(self).model().next_external + 1,
                        ..old(self).model()
                    })
                    &&& final(self).model() == guard_step(
                        old(self).model(),
                        GuardOp::Reveal(Keychain::External),
                    )
                },
                Err(e) => {
                    &&& !persist_ok
                    &&& e.kind == ErrorKind::Resource
                    &&& *final(self) == *old(self)
                },
            },
    {
        if !persist_ok {
            return Err(
                ErrorResponse {
                    kind: ErrorKind::Resource,
                    message: String::from_str("Database operation failed"),
                },
            );
        }
        let idx = self.state.reveal_next_index(Keychain::External);
        proof {
            self.persisted@ = self.state.model();
        }
        Ok(idx)
    }

    /// Critical section of the sync worker: apply a chain update, then
    /// persist it. A rejected update (corrupt chain data) or a refused
    /// persist leaves the state untouched; either is fatal for the
    /// worker, which must not continue serving stale data.
    pub fn apply_update_section(&mut self, u: &ChainUpdate, persist_ok: bool) -> (r: Result<
        (),
        ErrorResponse,
    >)
        requires
            old(self).wf(),
            u.wf(),
        ensures
            final(self).wf(),
            match r {
                Ok(()) => {
                    &&& persist_ok
                    &&& total_value(apply_coins(old(self).model().coins, u.records@))
                        <= MAX_MONEY_SAT
                    &&& final(self).model() == spec_apply(old(self).model(), u.records@)
                    &&& final(self).model() == guard_step(old(self).model(), GuardOp::Apply(u.records@))
                },
                Err(e) => {
                    &&& *final(self) == *old(self)
                    &&& (e.kind == ErrorKind::Fatal || e.kind == ErrorKind::Resource)
                    &&& (e.kind == ErrorKind::Resource ==> !persist_ok)
                    &&& (e.kind == ErrorKind::Fatal ==> total_value(
                        apply_coins(old(self).model().coins, u.records@),
                    ) > MAX_MONEY_SAT)
                },
            },
    {
        let mut scratch = self.state.snapshot();
        proof {
            assert(scratch.wf());
        }
        match scratch.apply_update(u) {
            Err(e) => Err(e),
            Ok(()) => {
                if !persist_ok {
                    return Err(
                        ErrorResponse {
                            kind: ErrorKind::Resource,
                            message: String::from_str("Database operation failed"),
                        },
                    );
                }
                self.state = scratch;
                proof {
                    self.persisted@ = self.state.model();
                }
                Ok(())
            },
        }
    }

    /// Critical section of the payment builder: select and reserve coins
    /// covering the requested value, and persist the reservation, all
    /// under one exclusive hold, so concurrent builds can never select
    /// the same coin. Failure to cover the value or to persist leaves
    /// the state untouched.
    pub fn reserve_payment_section(&mut self, target: u64, persist_ok: bool) -> (r: Result<
        Vec<u64>,
        ErrorResponse,
    >)
        requires
            old(self).wf(),
        ensures
            final(self).wf(),
            match r {
                Ok(ids) => {
                    &&& persist_ok
                    &&& spec_select(old(self).model().coins, old(self).model().reserved, target as int)
                        == Some(ids@)
                    &&& final(self).model() == (StateModel {
                        reserved: old(self).model().reserved + ids@,
                        ..old(self).model()
                    })
                    &&& final(self).model() == guard_step(
                        old(self).model(),
                        GuardOp::ReservePayment(target as int),
                    )
                },
                Err(e) => {
                    &&& *final(self) == *old(self)
                    &&& (spec_select(
                        old(self).model().coins,
                        old(self).model().reserved,
                        target as int,
                    ) is None ==> e.kind == ErrorKind::InvalidInput)
                    &&& (spec_select(
                        old(self).model().coins,
                        old(self).model().reserved,
                        target as int,
                    ) is Some ==> !persist_ok && e.kind == ErrorKind::Resource)
                },
            },
    {
        proof {
            assert(self.state.coins@.skip(0) =~= self.state.coins@);
        }
        match select_from(&self.state.coins, 0, &self.state.reserved, target) {
            None => Err(
                ErrorResponse {
                    kind: ErrorKind::InvalidInput,
                    message: String::from_str("Could not create PSBT: insufficient funds"),
                },
            ),
            Some(_) => {
                if !persist_ok {
                    return Err(
                        ErrorResponse {
                            kind: ErrorKind::Resource,
                            message: String::from_str("Database operation failed"),
                        },
                    );
                }
                match self.state.reserve_coins(target) {
                    Some(ids) => {
                        proof {
                            self.persisted@ = self.state.model();
                        }
                        Ok(ids)
                    },
                    None => vstd::pervasive::unreached(),
                }
            },
        }
    }

    /// Critical section of the drain builder: reserve every unreserved
    /// coin under one exclusive hold and persist. An empty wallet or a
    /// refused persist leaves the state untouched.
    pub fn reserve_drain_section(&mut self, persist_ok: bool) -> (r: Result<
        Vec<u64>,
        ErrorResponse,
    >)
        requires
            old(self).wf(),
        ensures
            final(self).wf(),
            match r {
                Ok(ids) => {
                    &&& persist_ok
                    &&& ids@ == avail_ids(old(self).model().coins, old(self).model().reserved)
                    &&& ids@.len() > 0
                    &&& final(self).model() == (StateModel {
                        reserved: old(self).model().reserved + ids@,
                        ..old(self).model()
                    })
                    &&& final(self).model() == guard_step(old(self).model(), GuardOp::ReserveDrain)
                },
                Err(e) => {
                    &&& *final(self) == *old(self)
                    &&& (avail_ids(old(self).model().coins, old(self).model().reserved).len() == 0
                        ==> e.kind == ErrorKind::InvalidInput)
                    &&& (avail_ids(old(self).model().coins, old(self).model().reserved).len() > 0
                        ==> !persist_ok && e.kind == ErrorKind::Resource)
                },
            },
    {
        let probe = self.state.list_available();
        if probe.len() == 0 {
            return Err(
                ErrorResponse {
                    kind: ErrorKind::InvalidInput,
                    message: String::from_str("Could not create PSBT: no spendable outputs"),
                },
            );
        }
        if !persist_ok {
            return Err(
                ErrorResponse {
                    kind: ErrorKind::Resource,
                    message: String::from_str("Database operation failed"),
                },
            );
        }
        match self.state.reserve_all() {
            Some(ids) => {
                proof {
                    self.persisted@ = self.state.model();
                }
                Ok(ids)
            },
            None => vstd::pervasive::unreached(),
        }
    }
}

/// The operations a guard admits, as they act on the state model. A
/// restart rebuilds the state from the persisted record, which the guard
/// keeps equal to it, so on the model it changes nothing.
pub enum GuardOp {
    Reveal(Keychain),
    Apply(Seq<CoinRecord>),
    ReservePayment(int),
    ReserveDrain,
    Restart,
}

/// Revealing the next index of a branch.
pub open spec fn reveal_step(m: StateModel, kc: Keychain) -> StateModel {
    match kc {
        Keychain::External => StateModel { next_external: m.next_external + 1, ..m },
        Keychain::Internal => StateModel { next_internal: m.next_internal + 1, ..m },
    }
}

/// The effect of one successful guard operation on the state model.
pub open spec fn guard_step(m: StateModel, op: GuardOp) -> StateModel {
    match op {
        GuardOp::Reveal(kc) => reveal_step(m, kc),
        GuardOp::Apply(rs) => spec_apply(m, rs),
        GuardOp::ReservePayment(t) => match spec_select(m.coins, m.reserved, t) {
            Some(ids) => StateModel { reserved: m.reserved + ids, ..m },
            None => m,
        },
        GuardOp::ReserveDrain => if avail_ids(m.coins, m.reserved).len() > 0 {
            StateModel { reserved: m.reserved + avail_ids(m.coins, m.reserved), ..m }
        } else {
            m
        },
        GuardOp::Restart => m,
    }
}

/// The state model after a whole sequence of guard operations.
pub open spec fn guard_run(m: StateModel, ops: Seq<GuardOp>) -> StateModel
    decreases ops.len(),
{
    if ops.len() == 0 {
        m
    } else {
        guard_run(guard_step(m, ops[0]), ops.skip(1))
    }
}

/// No guard operation ever lowers a next-unused index.
pub proof fn lemma_next_monotone_step(m: StateModel, op: GuardOp, kc: Keychain)
    ensures
        model_next(guard_step(m, op), kc) >= model_next(m, kc),
{
    match op {
        GuardOp::Apply(rs) => {
            lemma_apply_next_ge(m.next_external, rs, Keychain::External);
            lemma_apply_next_ge(m.next_internal, rs, Keychain::Internal);
        },
        _ => {},
    }
}

/// Across any sequence of guard operations, a next-unused index never
/// decreases.
pub proof fn lemma_next_monotone_run(m: StateModel, ops: Seq<GuardOp>, kc: Keychain)
    ensures
        model_next(guard_run(m, ops), kc) >= model_next(m, kc),
    decreases ops.len(),
{
    if ops.len() > 0 {
        lemma_next_monotone_step(m, ops[0], kc);
        lemma_next_monotone_run(guard_step(m, ops[0]), ops.skip(1), kc);
    }
}

/// The next-address indices are strictly monotonically increasing per
/// keychain across calls: a first reveal on `m0` answers the index
/// `model_next(m0, kc)`; whatever guard operations follow — chain
/// updates, reservations, restarts from the persisted record — a later
/// reveal answers a strictly larger index, so an index is never reused.
pub proof fn lemma_reveal_indices_strictly_increase(
    m0: StateModel,
    ops: Seq<GuardOp>,
    kc: Keychain,
)
    ensures
        model_next(guard_run(reveal_step(m0, kc), ops), kc) > model_next(m0, kc),
{
    assert(model_next(reveal_step(m0, kc), kc) == model_next(m0, kc) + 1);
    lemma_next_monotone_run(reveal_step(m0, kc), ops, kc);
}

/// No guard operation ever releases a reserved outpoint.
pub proof fn lemma_reserved_monotone_step(m: StateModel, op: GuardOp)
    ensures
        forall|x: u64| m.reserved.contains(x) ==> guard_step(m, op).reserved.contains(x),
{
    let r2 = guard_step(m, op).reserved;
    assert forall|x: u64| m.reserved.contains(x) implies r2.contains(x) by {
        let i = choose|i: int| 0 <= i < m.reserved.len() && m.reserved[i] == x;
        assert(r2[i] == x);
    }
}

/// Across any sequence of guard operations, reservations persist.
pub proof fn lemma_reserved_monotone_run(m: StateModel, ops: Seq<GuardOp>)
    ensures
        forall|x: u64| m.reserved.contains(x) ==> guard_run(m, ops).reserved.contains(x),
    decreases ops.len(),
{
    if ops.len() > 0 {
        lemma_reserved_monotone_step(m, ops[0]);
        lemma_reserved_monotone_run(guard_step(m, ops[0]), ops.skip(1));
    }
}

/// What a later build may select never meets a set of outpoints the
/// reserved set already holds.
pub proof fn lemma_later_build_avoids(m2: StateModel, ids1: Seq<u64>, t2: int)
    requires
        forall|x: u64| ids1.contains(x) ==> m2.reserved.contains(x),
    ensures
        spec_select(m2.coins, m2.reserved, t2) is Some ==> forall|x: u64|
            ids1.contains(x) ==> !spec_select(m2.coins, m2.reserved, t2)->Some_0.contains(x),
        forall|x: u64| ids1.contains(x) ==> !avail_ids(m2.coins, m2.reserved).contains(x),
{
    if spec_select(m2.coins, m2.reserved, t2) is Some {
        let ids2 = spec_select(m2.coins, m2.reserved, t2)->Some_0;
        lemma_select_props(m2.coins, m2.reserved, t2);
        assert forall|x: u64| ids1.contains(x) implies !ids2.contains(x) by {
            if ids2.contains(x) {
                let k = choose|k: int| 0 <= k < ids2.len() && ids2[k] == x;
            }
        }
    }
    let av = avail_ids(m2.coins, m2.reserved);
    lemma_avail_props(m2.coins, m2.reserved);
    assert forall|x: u64| ids1.contains(x) implies !av.contains(x) by {
        if av.contains(x) {
            let k = choose|k: int| 0 <= k < av.len() && av[k] == x;
        }
    }
}

/// Serializability of reservation: among any sequence of guard
/// operations, no two successful builds reserve the same coin. A first
/// successful payment build on `m0` reserves `ids1`; after any further
/// operations, a later successful build — payment or drain — selects
/// only coins the reserved set does not hold, and the reserved set still
/// holds all of `ids1`, so the two reservations are disjoint.
pub proof fn lemma_no_double_reservation(
    m0: StateModel,
    t1: int,
    ops: Seq<GuardOp>,
    t2: int,
)
    requires
        spec_select(m0.coins, m0.reserved, t1) is Some,
    ensures
        ({
            let ids1 = spec_select(m0.coins, m0.reserved, t1)->Some_0;
            let m2 = guard_run(guard_step(m0, GuardOp::ReservePayment(t1)), ops);
            &&& (spec_select(m2.coins, m2.reserved, t2) is Some ==> forall|x: u64|
                ids1.contains(x) ==> !spec_select(m2.coins, m2.reserved, t2)->Some_0.contains(
                    x,
                ))
            &&& (forall|x: u64| ids1.contains(x) ==> !avail_ids(m2.coins, m2.reserved).contains(x))
        }),
{
    let ids1 = spec_select(m0.coins, m0.reserved, t1)->Some_0;
    let m1 = guard_step(m0, GuardOp::ReservePayment(t1));
    let m2 = guard_run(m1, ops);
    assert(m1.reserved == m0.reserved + ids1);
    assert forall|x: u64| ids1.contains(x) implies m1.reserved.contains(x) by {
        let k = choose|k: int| 0 <= k < ids1.len() && ids1[k] == x;
        assert(m1.reserved[m0.reserved.len() + k] == x);
    }
    lemma_reserved_monotone_run(m1, ops);
    lemma_later_build_avoids(m2, ids1, t2);
}

/// The drain-first counterpart: a successful drain on `m0` reserves
/// every unreserved coin, and no later successful build selects any of
/// them.
pub proof fn lemma_no_double_reservation_after_drain(
    m0: StateModel,
    ops: Seq<GuardOp>,
    t2: int,
)
    ensures
        ({
            let ids1 = avail_ids(m0.coins, m0.reserved);
            let m2 = guard_run(guard_step(m0, GuardOp::ReserveDrain), ops);
            ids1.len() > 0 ==> {
                &&& (spec_select(m2.coins, m2.reserved, t2) is Some ==> forall|x: u64|
                    ids1.contains(x) ==> !spec_select(m2.coins, m2.reserved, t2)->Some_0.contains(
                        x,
                    ))
                &&& (forall|x: u64|
                    ids1.contains(x) ==> !avail_ids(m2.coins, m2.reserved).contains(x))
            }
        }),
{
    let ids1 = avail_ids(m0.coins, m0.reserved);
    if ids1.len() > 0 {
        let m1 = guard_step(m0, GuardOp::ReserveDrain);
        let m2 = guard_run(m1, ops);
        assert(m1.reserved == m0.reserved + ids1);
        assert forall|x: u64| ids1.contains(x) implies m1.reserved.contains(x) by {
            let k = choose|k: int| 0 <= k < ids1.len() && ids1[k] == x;
            assert(m1.reserved[m0.reserved.len() + k] == x);
        }
        lemma_reserved_monotone_run(m1, ops);
        lemma_later_build_avoids(m2, ids1, t2);
    }
}

} // verus!
