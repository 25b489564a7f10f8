//! The in-memory wallet ledger: coins, reservations, derivation indices,
//! descriptors. One instance exists per process and every mutation goes
//! through the guard, so each method here is one atomic read-modify-write.

use vstd::prelude::*;

use crate::types::{ChainUpdate, Coin, CoinRecord, Keychain, Network};

verus! {

/// Total money supply in satoshis; every wallet holds at most this much,
/// which keeps all balance arithmetic inside `u64`.
pub const MAX_MONEY_SAT: u64 = 2_100_000_000_000_000;

/// Mathematical snapshot of a `WalletState`, used by contracts.
pub struct StateModel {
    pub coins: Seq<Coin>,
    pub reserved: Seq<u64>,
    pub next_external: int,
    pub next_internal: int,
    pub receive_descriptor: Seq<char>,
    pub change_descriptor: Seq<char>,
    pub network: Network,
}

/// The wallet's in-memory state: the single shared ledger.
pub struct WalletState {
    /// Unspent outputs known to the wallet, in insertion order.
    pub coins: Vec<Coin>,
    /// Outpoints consumed by a built transaction and not yet seen spent
    /// on chain; excluded from balances, listings and later selections.
    pub reserved: Vec<u64>,
    /// Next unused derivation index of the receiving branch.
    pub next_external_index: u32,
    /// Next unused derivation index of the change branch.
    pub next_internal_index: u32,
    /// Public descriptor of the receiving branch.
    pub receive_descriptor: String,
    /// Public descriptor of the change branch.
    pub change_descriptor: String,
    /// The chain this wallet is configured for.
    pub network: Network,
}

/// Whether some coin of `s` has outpoint `op`.
pub open spec fn has_outpoint(s: Seq<Coin>, op: u64) -> bool {
    exists|i: int| 0 <= i < s.len() && (#[trigger] s[i]).outpoint == op
}

/// All outpoints of `s` are distinct.
pub open spec fn distinct_outpoints(s: Seq<Coin>) -> bool {
    forall|i: int, j: int|
        0 <= i < j < s.len() ==> (#[trigger] s[i]).outpoint != (#[trigger] s[j]).outpoint
}

/// The next unused index `m` records for branch `kc`.
pub open spec fn model_next(m: StateModel, kc: Keychain) -> int {
    match kc {
        Keychain::External => m.next_external,
        Keychain::Internal => m.next_internal,
    }
}

/// Sum of the values of the coins of `s` that satisfy `f`.
pub open spec fn sum_value_if(s: Seq<Coin>, f: spec_fn(Coin) -> bool) -> int
    decreases s.len(),
{
    if s.len() == 0 {
        0
    } else {
        sum_value_if(s.drop_last(), f) + if f(s.last()) {
            s.last().value_sat as int
        } else {
            0
        }
    }
}

/// Sum of the values of all coins of `s`.
pub open spec fn total_value(s: Seq<Coin>) -> int
    decreases s.len(),
{
    if s.len() == 0 {
        0
    } else {
        total_value(s.drop_last()) + s.last().value_sat as int
    }
}

/// One step of a prefix total: extending the prefix by one coin adds its
/// value.
pub proof fn lemma_total_take_step(s: Seq<Coin>, i: int)
    requires
        0 <= i < s.len(),
    ensures
        total_value(s.take(i + 1)) == total_value(s.take(i)) + s[i].value_sat as int,
{
    assert(s.take(i + 1).drop_last() =~= s.take(i));
    assert(s.take(i + 1).last() == s[i]);
}

/// A prefix of the total never exceeds the whole total.
pub proof fn lemma_total_prefix_le(s: Seq<Coin>, i: int)
    requires
        0 <= i <= s.len(),
    ensures
        total_value(s.take(i)) <= total_value(s),
    decreases s.len() - i,
{
    if i < s.len() {
        lemma_total_take_step(s, i);
        lemma_total_prefix_le(s, i + 1);
    } else {
        assert(s.take(i) =~= s);
    }
}

/// Confirmed balance: confirmed, unreserved coins.
pub open spec fn spec_confirmed_balance(m: StateModel) -> int {
    sum_value_if(
        m.coins,
        |c: Coin| c.confirmation_height is Some && !m.reserved.contains(c.outpoint),
    )
}

/// Unconfirmed balance: unconfirmed, unreserved coins.
pub open spec fn spec_unconfirmed_balance(m: StateModel) -> int {
    sum_value_if(
        m.coins,
        |c: Coin| c.confirmation_height is None && !m.reserved.contains(c.outpoint),
    )
}

/// Total balance: every unreserved coin.
pub open spec fn spec_total_balance(m: StateModel) -> int {
    sum_value_if(m.coins, |c: Coin| !m.reserved.contains(c.outpoint))
}

impl WalletState {
    /// Mathematical view of the state.
    pub open spec fn model(self) -> StateModel {
        StateModel {
            coins: self.coins@,
            reserved: self.reserved@,
            next_external: self.next_external_index as int,
            next_internal: self.next_internal_index as int,
            receive_descriptor: self.receive_descriptor@,
            change_descriptor: self.change_descriptor@,
            network: self.network,
        }
    }

    /// Well-formedness: outpoints are unique, no revealed index lies at or
    /// beyond the next unused one, and the total value fits the supply cap.
    pub open spec fn wf(self) -> bool {
        &&& distinct_outpoints(self.coins@)
        &&& forall|i: int|
            0 <= i < self.coins@.len() ==> (#[trigger] self.coins@[i]).derivation_index
                < model_next(self.model(), self.coins@[i].keychain)
        &&& total_value(self.coins@) <= MAX_MONEY_SAT
    }
}

/// Bounds any conditional sum by the unconditional one.
pub proof fn lemma_sum_le_total(s: Seq<Coin>, f: spec_fn(Coin) -> bool)
    ensures
        0 <= sum_value_if(s, f) <= total_value(s),
    decreases s.len(),
{
    if s.len() > 0 {
        lemma_sum_le_total(s.drop_last(), f);
    }
}

/// One step of a prefix sum: extending the prefix by one coin adds its
/// value exactly when the filter accepts it.
pub proof fn lemma_sum_take_step(s: Seq<Coin>, f: spec_fn(Coin) -> bool, i: int)
    requires
        0 <= i < s.len(),
    ensures
        sum_value_if(s.take(i + 1), f) == sum_value_if(s.take(i), f) + if f(s[i]) {
            s[i].value_sat as int
        } else {
            0
        },
{
    assert(s.take(i + 1).drop_last() =~= s.take(i));
    assert(s.take(i + 1).last() == s[i]);
}

/// A conditional sum splits by a second condition: the coins accepted by
/// `f` are exactly those accepted by `f` and `g` plus those accepted by
/// `f` and not `g`.
pub proof fn lemma_sum_split(
    s: Seq<Coin>,
    f: spec_fn(Coin) -> bool,
    g: spec_fn(Coin) -> bool,
)
    ensures
        sum_value_if(s, f) == sum_value_if(s, |c: Coin| f(c) && g(c)) + sum_value_if(
            s,
            |c: Coin| f(c) && !g(c),
        ),
    decreases s.len(),
{
    if s.len() > 0 {
        lemma_sum_split(s.drop_last(), f, g);
    }
}

/// Whether `v` holds `x`; linear scan.
pub fn contains_u64(v: &Vec<u64>, x: u64) -> (r: bool)
    ensures
        r == v@.contains(x),
{
    let mut i: usize = 0;
    while i < v.len()
        invariant
            0 <= i <= v@.len(),
            forall|j: int| 0 <= j < i ==> v@[j] != x,
        decreases v@.len() - i,
    {
        if v[i] == x {
            return true;
        }
        i += 1;
    }
    false
}

impl WalletState {
    /// Confirmed balance in satoshis.
    pub fn confirmed_balance(&self) -> (r: u64)
        requires
            self.wf(),
        ensures
            r as int == spec_confirmed_balance(self.model()),
    {
        proof {
            lemma_sum_le_total(
                self.coins@,
                |c: Coin| c.confirmation_height is Some && !self.reserved@.contains(c.outpoint),
            );
        }
        let ghost f = |c: Coin| c.confirmation_height is Some && !self.reserved@.contains(c.outpoint);
        let mut acc: u64 = 0;
        let mut i: usize = 0;
        while i < self.coins.len()
            invariant
                0 <= i <= self.coins@.len(),
                acc as int == sum_value_if(self.coins@.take(i as int), f),
                f == (|c: Coin| c.confirmation_height is Some && !self.reserved@.contains(
                    c.outpoint,
                )),
                sum_value_if(self.coins@, f) <= MAX_MONEY_SAT,
                self.wf(),
            decreases self.coins@.len() - i,
        {
            let c = self.coins[i];
            proof {
                lemma_sum_take_step(self.coins@, f, i as int);
                lemma_sum_prefix_le(self.coins@, f, i as int + 1);
            }
            if c.confirmation_height.is_some() && !contains_u64(&self.reserved, c.outpoint) {
                acc = acc + c.value_sat;
            }
            i += 1;
        }
        proof {
            assert(self.coins@.take(self.coins@.len() as int) =~= self.coins@);
        }
        acc
    }
}

impl WalletState {
    /// Unconfirmed balance in satoshis.
    pub fn unconfirmed_balance(&self) -> (r: u64)
        requires
            self.wf(),
        ensures
            r as int == spec_unconfirmed_balance(self.model()),
    {
        proof {
            lemma_sum_le_total(
                self.coins@,
                |c: Coin| c.confirmation_height is None && !self.reserved@.contains(c.outpoint),
            );
        }
        let ghost f = |c: Coin| c.confirmation_height is None && !self.reserved@.contains(c.outpoint);
        let mut acc: u64 = 0;
        let mut i: usize = 0;
        while i < self.coins.len()
            invariant
                0 <= i <= self.coins@.len(),
                acc as int == sum_value_if(self.coins@.take(i as int), f),
                f == (|c: Coin| c.confirmation_height is None && !self.reserved@.contains(
                    c.outpoint,
                )),
                sum_value_if(self.coins@, f) <= MAX_MONEY_SAT,
                self.wf(),
            decreases self.coins@.len() - i,
        {
            let c = self.coins[i];
            proof {
                lemma_sum_take_step(self.coins@, f, i as int);
                lemma_sum_prefix_le(self.coins@, f, i as int + 1);
            }
            if c.confirmation_height.is_none() && !contains_u64(&self.reserved, c.outpoint) {
                acc = acc + c.value_sat;
            }
            i += 1;
        }
        proof {
            assert(self.coins@.take(self.coins@.len() as int) =~= self.coins@);
        }
        acc
    }

    /// Total balance in satoshis: the confirmed and the unconfirmed parts.
    pub fn total_balance(&self) -> (r: u64)
        requires
            self.wf(),
        ensures
            r as int == spec_total_balance(self.model()),
            r as int == spec_confirmed_balance(self.model()) + spec_unconfirmed_balance(
                self.model(),
            ),
    {
        proof {
            lemma_balance_parts(self.model());
            lemma_sum_le_total(self.coins@, |c: Coin| !self.reserved@.contains(c.outpoint));
        }
        let c = self.confirmed_balance();
        let u = self.unconfirmed_balance();
        c + u
    }
}

/// The total balance is the confirmed plus the unconfirmed balance.
pub proof fn lemma_balance_parts(m: StateModel)
    ensures
        spec_total_balance(m) == spec_confirmed_balance(m) + spec_unconfirmed_balance(m),
{
    let f = |c: Coin| !m.reserved.contains(c.outpoint);
    let g = |c: Coin| c.confirmation_height is Some;
    lemma_sum_split(m.coins, f, g);
    assert((|c: Coin| f(c) && g(c)) =~= (
    |c: Coin| c.confirmation_height is Some && !m.reserved.contains(c.outpoint)));
    assert((|c: Coin| f(c) && !g(c)) =~= (
    |c: Coin| c.confirmation_height is None && !m.reserved.contains(c.outpoint)));
}

/// Greedy selection: walk the coins in order, picking every coin not yet
/// reserved, until the picked values reach `target`; the selection fails
/// when even all unreserved coins together fall short.
pub open spec fn spec_select(coins: Seq<Coin>, reserved: Seq<u64>, target: int) -> Option<
    Seq<u64>,
>
    decreases coins.len(),
{
    if target <= 0 {
        Some(Seq::empty())
    } else if coins.len() == 0 {
        None
    } else if !reserved.contains(coins[0].outpoint) {
        match spec_select(coins.skip(1), reserved, target - coins[0].value_sat) {
            Some(rest) => Some(seq![coins[0].outpoint] + rest),
            None => None,
        }
    } else {
        spec_select(coins.skip(1), reserved, target)
    }
}

/// The outpoints of every coin not yet reserved, in order.
pub open spec fn avail_ids(coins: Seq<Coin>, reserved: Seq<u64>) -> Seq<u64>
    decreases coins.len(),
{
    if coins.len() == 0 {
        Seq::empty()
    } else if !reserved.contains(coins.last().outpoint) {
        avail_ids(coins.drop_last(), reserved).push(coins.last().outpoint)
    } else {
        avail_ids(coins.drop_last(), reserved)
    }
}

/// The total value of the unreserved coins.
pub open spec fn avail_value(coins: Seq<Coin>, reserved: Seq<u64>) -> int
    decreases coins.len(),
{
    if coins.len() == 0 {
        0
    } else {
        avail_value(coins.drop_last(), reserved) + if !reserved.contains(
            coins.last().outpoint,
        ) {
            coins.last().value_sat as int
        } else {
            0
        }
    }
}

/// Unreserved value is never negative.
pub proof fn lemma_avail_value_nonneg(coins: Seq<Coin>, reserved: Seq<u64>)
    ensures
        avail_value(coins, reserved) >= 0,
    decreases coins.len(),
{
    if coins.len() > 0 {
        lemma_avail_value_nonneg(coins.drop_last(), reserved);
    }
}

/// Unreserved value, taken off the front.
pub proof fn lemma_avail_value_front(coins: Seq<Coin>, reserved: Seq<u64>)
    requires
        coins.len() > 0,
    ensures
        avail_value(coins, reserved) == (if !reserved.contains(coins[0].outpoint) {
            coins[0].value_sat as int
        } else {
            0
        }) + avail_value(coins.skip(1), reserved),
    decreases coins.len(),
{
    if coins.len() == 1 {
        assert(coins.skip(1) =~= Seq::<Coin>::empty());
        assert(coins.drop_last() =~= Seq::<Coin>::empty());
        assert(avail_value(Seq::<Coin>::empty(), reserved) == 0);
        assert(coins.last() == coins[0]);
    } else {
        let pre = coins.drop_last();
        lemma_avail_value_front(pre, reserved);
        assert(coins.skip(1).drop_last() =~= pre.skip(1));
        assert(coins.skip(1).last() == coins.last());
        assert(pre[0] == coins[0]);
        let last_part: int = if !reserved.contains(coins.last().outpoint) {
            coins.last().value_sat as int
        } else {
            0
        };
        let head_part: int = if !reserved.contains(coins[0].outpoint) {
            coins[0].value_sat as int
        } else {
            0
        };
        assert(avail_value(coins.skip(1), reserved) == avail_value(pre.skip(1), reserved)
            + last_part);
        assert(avail_value(coins, reserved) == avail_value(pre, reserved) + last_part);
        assert(avail_value(pre, reserved) == head_part + avail_value(pre.skip(1), reserved));
    }
}

/// Success is owed: the greedy selection fails exactly when even the
/// unreserved coins together cannot cover the target.
pub proof fn lemma_select_complete(coins: Seq<Coin>, reserved: Seq<u64>, target: int)
    ensures
        spec_select(coins, reserved, target) is Some <==> (target <= 0 || avail_value(
            coins,
            reserved,
        ) >= target),
    decreases coins.len(),
{
    if target <= 0 {
    } else if coins.len() == 0 {
    } else {
        lemma_avail_value_front(coins, reserved);
        if !reserved.contains(coins[0].outpoint) {
            lemma_select_complete(coins.skip(1), reserved, target - coins[0].value_sat);
            lemma_avail_value_nonneg(coins.skip(1), reserved);
        } else {
            lemma_select_complete(coins.skip(1), reserved, target);
        }
    }
}

/// Every selected outpoint names an unreserved coin of the wallet.
pub proof fn lemma_select_props(coins: Seq<Coin>, reserved: Seq<u64>, target: int)
    requires
        spec_select(coins, reserved, target) is Some,
    ensures
        forall|k: int|
            0 <= k < spec_select(coins, reserved, target)->Some_0.len() ==> {
                let id = #[trigger] spec_select(coins, reserved, target)->Some_0[k];
                !reserved.contains(id) && has_outpoint(coins, id)
            },
    decreases coins.len(),
{
    let ids = spec_select(coins, reserved, target)->Some_0;
    if target <= 0 {
    } else if coins.len() == 0 {
    } else if !reserved.contains(coins[0].outpoint) {
        let rest = spec_select(coins.skip(1), reserved, target - coins[0].value_sat)->Some_0;
        lemma_select_props(coins.skip(1), reserved, target - coins[0].value_sat);
        assert forall|k: int| 0 <= k < ids.len() implies {
            let id = #[trigger] ids[k];
            !reserved.contains(id) && has_outpoint(coins, id)
        } by {
            if k == 0 {
                assert(ids[0] == coins[0].outpoint);
            } else {
                assert(ids[k] == rest[k - 1]);
                assert(has_outpoint(coins.skip(1), rest[k - 1]));
                let i = choose|i: int|
                    0 <= i < coins.skip(1).len() && (#[trigger] coins.skip(1)[i]).outpoint
                        == rest[k - 1];
                assert(coins[i + 1].outpoint == rest[k - 1]);
            }
        }
    } else {
        lemma_select_props(coins.skip(1), reserved, target);
        assert forall|k: int| 0 <= k < ids.len() implies {
            let id = #[trigger] ids[k];
            !reserved.contains(id) && has_outpoint(coins, id)
        } by {
            assert(ids[k] == spec_select(coins.skip(1), reserved, target)->Some_0[k]);
            assert(has_outpoint(coins.skip(1), ids[k]));
            let i = choose|i: int|
                0 <= i < coins.skip(1).len() && (#[trigger] coins.skip(1)[i]).outpoint == ids[k];
            assert(coins[i + 1].outpoint == ids[k]);
        }
    }
}

/// Every listed available outpoint names an unreserved coin.
pub proof fn lemma_avail_props(coins: Seq<Coin>, reserved: Seq<u64>)
    ensures
        forall|k: int|
            0 <= k < avail_ids(coins, reserved).len() ==> {
                let id = #[trigger] avail_ids(coins, reserved)[k];
                !reserved.contains(id) && has_outpoint(coins, id)
            },
    decreases coins.len(),
{
    let ids = avail_ids(coins, reserved);
    if coins.len() > 0 {
        let pre = coins.drop_last();
        lemma_avail_props(pre, reserved);
        assert forall|k: int| 0 <= k < ids.len() implies {
            let id = #[trigger] ids[k];
            !reserved.contains(id) && has_outpoint(coins, id)
        } by {
            if k < avail_ids(pre, reserved).len() {
                assert(ids[k] == avail_ids(pre, reserved)[k]);
                assert(has_outpoint(pre, ids[k]));
                let i = choose|i: int|
                    0 <= i < pre.len() && (#[trigger] pre[i]).outpoint == ids[k];
                assert(coins[i].outpoint == ids[k]);
            } else {
                assert(ids[k] == coins.last().outpoint);
                assert(coins[coins.len() - 1] == coins.last());
            }
        }
    }
}

/// Availability, one prefix step at a time.
pub proof fn lemma_avail_take_step(coins: Seq<Coin>, reserved: Seq<u64>, i: int)
    requires
        0 <= i < coins.len(),
    ensures
        avail_ids(coins.take(i + 1), reserved) == if !reserved.contains(coins[i].outpoint) {
            avail_ids(coins.take(i), reserved).push(coins[i].outpoint)
        } else {
            avail_ids(coins.take(i), reserved)
        },
{
    assert(coins.take(i + 1).drop_last() =~= coins.take(i));
    assert(coins.take(i + 1).last() == coins[i]);
}

impl WalletState {
    /// Reveals the next unused index of a branch and advances it: the
    /// returned index is never handed out again.
    pub fn reveal_next_index(&mut self, kc: Keychain) -> (r: u32)
        requires
            old(self).wf(),
            model_next(old(self).model(), kc) < u32::MAX,
        ensures
            final(self).wf(),
            r as int == model_next(old(self).model(), kc),
            model_next(final(self).model(), kc) == model_next(old(self).model(), kc) + 1,
            final(self).model() == (StateModel {
                next_external: final(self).model().next_external,
                next_internal: final(self).model().next_internal,
                ..old(self).model()
            }),
            kc == Keychain::External ==> final(self).model().next_internal == old(
                self,
            ).model().next_internal,
            kc == Keychain::Internal ==> final(self).model().next_external == old(
                self,
            ).model().next_external,
    {
        match kc {
            Keychain::External => {
                let r = self.next_external_index;
                self.next_external_index = r + 1;
                r
            },
            Keychain::Internal => {
                let r = self.next_internal_index;
                self.next_internal_index = r + 1;
                r
            },
        }
    }
}

/// Executable greedy selection over the coins from position `i` on.
pub(crate) fn select_from(coins: &Vec<Coin>, i: usize, reserved: &Vec<u64>, target: u64) -> (r: Option<
    Vec<u64>,
>)
    requires
        i <= coins@.len(),
    ensures
        match r {
            Some(ids) => spec_select(coins@.skip(i as int), reserved@, target as int) == Some(
                ids@,
            ),
            None => spec_select(coins@.skip(i as int), reserved@, target as int) is None,
        },
    decreases coins@.len() - i,
{
    let ghost tail = coins@.skip(i as int);
    if target == 0 {
        return Some(Vec::new());
    }
    if i == coins.len() {
        assert(tail.len() == 0);
        return None;
    }
    let c = coins[i];
    assert(tail[0] == coins@[i as int]);
    assert(tail.skip(1) =~= coins@.skip(i as int + 1));
    if !contains_u64(reserved, c.outpoint) {
        let rest = if c.value_sat >= target {
            Some(Vec::new())
        } else {
            select_from(coins, i + 1, reserved, target - c.value_sat)
        };
        match rest {
            Some(mut ids) => {
                ids.insert(0, c.outpoint);
                assert(ids@ =~= seq![c.outpoint] + ids@.skip(1));
                Some(ids)
            },
            None => None,
        }
    } else {
        select_from(coins, i + 1, reserved, target)
    }
}

impl WalletState {
    /// Reserves unreserved coins covering `target` satoshis, greedily in
    /// order; fails, changing nothing, exactly when the unreserved coins
    /// cannot cover it.
    pub fn reserve_coins(&mut self, target: u64) -> (r: Option<Vec<u64>>)
        requires
            old(self).wf(),
        ensures
            final(self).wf(),
            match r {
                Some(ids) => {
                    &&& spec_select(old(self).coins@, old(self).reserved@, target as int) == Some(
                        ids@,
                    )
                    &&& final(self).model() == (StateModel {
                        reserved: old(self).model().reserved + ids@,
                        ..old(self).model()
                    })
                },
                None => {
                    &&& spec_select(old(self).coins@, old(self).reserved@, target as int) is None
                    &&& *final(self) == *old(self)
                },
            },
    {
        let ghost pre = *self;
        match select_from(&self.coins, 0, &self.reserved, target) {
            Some(ids) => {
                assert(self.coins@.skip(0) =~= self.coins@);
                let mut k: usize = 0;
                while k < ids.len()
                    invariant
                        0 <= k <= ids@.len(),
                        self.reserved@ == pre.reserved@ + ids@.take(k as int),
                        self.coins == pre.coins,
                        self.next_external_index == pre.next_external_index,
                        self.next_internal_index == pre.next_internal_index,
                        self.receive_descriptor == pre.receive_descriptor,
                        self.change_descriptor == pre.change_descriptor,
                        self.network == pre.network,
                    decreases ids@.len() - k,
                {
                    self.reserved.push(ids[k]);
                    proof {
                        assert(self.reserved@ =~= pre.reserved@ + ids@.take(k as int + 1));
                    }
                    k += 1;
                }
                proof {
                    assert(ids@.take(ids@.len() as int) =~= ids@);
                }
                Some(ids)
            },
            None => {
                assert(self.coins@.skip(0) =~= self.coins@);
                None
            },
        }
    }

    /// The outpoints of every unreserved coin, in order; reads only.
    pub fn list_available(&self) -> (ids: Vec<u64>)
        ensures
            ids@ == avail_ids(self.coins@, self.reserved@),
    {
        let mut ids: Vec<u64> = Vec::new();
        let mut i: usize = 0;
        while i < self.coins.len()
            invariant
                0 <= i <= self.coins@.len(),
                ids@ == avail_ids(self.coins@.take(i as int), self.reserved@),
            decreases self.coins@.len() - i,
        {
            proof {
                lemma_avail_take_step(self.coins@, self.reserved@, i as int);
            }
            let c = self.coins[i];
            if !contains_u64(&self.reserved, c.outpoint) {
                ids.push(c.outpoint);
            }
            i += 1;
        }
        proof {
            assert(self.coins@.take(self.coins@.len() as int) =~= self.coins@);
        }
        ids
    }

    /// Reserves every unreserved coin, for draining the wallet; fails,
    /// changing nothing, when no coin is unreserved.
    pub fn reserve_all(&mut self) -> (r: Option<Vec<u64>>)
        requires
            old(self).wf(),
        ensures
            final(self).wf(),
            match r {
                Some(ids) => {
                    &&& ids@ == avail_ids(old(self).coins@, old(self).reserved@)
                    &&& ids@.len() > 0
                    &&& final(self).model() == (StateModel {
                        reserved: old(self).model().reserved + ids@,
                        ..old(self).model()
                    })
                },
                None => {
                    &&& avail_ids(old(self).coins@, old(self).reserved@).len() == 0
                    &&& *final(self) == *old(self)
                },
            },
    {
        let ghost pre = *self;
        let ids = self.list_available();
        if ids.len() == 0 {
            return None;
        }
        let mut k: usize = 0;
        while k < ids.len()
            invariant
                0 <= k <= ids@.len(),
                self.reserved@ == pre.reserved@ + ids@.take(k as int),
                self.coins == pre.coins,
                self.next_external_index == pre.next_external_index,
                self.next_internal_index == pre.next_internal_index,
                self.receive_descriptor == pre.receive_descriptor,
                self.change_descriptor == pre.change_descriptor,
                self.network == pre.network,
            decreases ids@.len() - k,
        {
            self.reserved.push(ids[k]);
            proof {
                assert(self.reserved@ =~= pre.reserved@ + ids@.take(k as int + 1));
            }
            k += 1;
        }
        proof {
            assert(ids@.take(ids@.len() as int) =~= ids@);
        }
        Some(ids)
    }
}

/// A copy of a list of outpoints.
pub(crate) fn clone_u64s(v: &Vec<u64>) -> (r: Vec<u64>)
    ensures
        r@ == v@,
{
    let mut out: Vec<u64> = Vec::new();
    let mut i: usize = 0;
    while i < v.len()
        invariant
            0 <= i <= v@.len(),
            out@ == v@.take(i as int),
        decreases v@.len() - i,
    {
        out.push(v[i]);
        proof {
            assert(out@ =~= v@.take(i as int + 1));
        }
        i += 1;
    }
    proof {
        assert(v@.take(v@.len() as int) =~= v@);
    }
    out
}

impl WalletState {
    /// A copy with the same mathematical state.
    pub fn snapshot(&self) -> (r: WalletState)
        ensures
            r.model() == self.model(),
    {
        WalletState {
            coins: crate::chain::clone_coins(&self.coins),
            reserved: clone_u64s(&self.reserved),
            next_external_index: self.next_external_index,
            next_internal_index: self.next_internal_index,
            receive_descriptor: self.receive_descriptor.clone(),
            change_descriptor: self.change_descriptor.clone(),
            network: self.network,
        }
    }
}

/// A prefix sum never exceeds the sum over the whole sequence.
pub proof fn lemma_sum_prefix_le(s: Seq<Coin>, f: spec_fn(Coin) -> bool, i: int)
    requires
        0 <= i <= s.len(),
    ensures
        sum_value_if(s.take(i), f) <= sum_value_if(s, f),
    decreases s.len() - i,
{
    if i < s.len() {
        lemma_sum_take_step(s, f, i);
        lemma_sum_prefix_le(s, f, i + 1);
        assert(sum_value_if(s.take(i), f) <= sum_value_if(s.take(i + 1), f));
        assert(s.take(s.len() as int) =~= s);
    } else {
        assert(s.take(i) =~= s);
    }
}

} // verus!
