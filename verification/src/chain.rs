//! Applying chain updates to the wallet state.
//!
//! An update is a batch of records, one per outpoint, applied in order:
//! a record either removes the outpoint (seen spent on chain) or inserts
//! or replaces it, and reveals the derivation index it was sent to. The
//! merge is last-writer-wins per outpoint, so applying the same update
//! again changes nothing.

use vstd::prelude::*;
use vstd::string::StringExecFns;

use crate::state::{
    distinct_outpoints, has_outpoint, lemma_total_prefix_le, lemma_total_take_step, total_value,
    StateModel, WalletState, MAX_MONEY_SAT,
};
use crate::types::{ChainUpdate, Coin, CoinRecord, ErrorKind, ErrorResponse, Keychain};

verus! {

/// The coin a record describes.
pub open spec fn coin_of(r: CoinRecord) -> Coin {
    Coin {
        outpoint: r.outpoint,
        value_sat: r.value_sat,
        keychain: r.keychain,
        derivation_index: r.derivation_index,
        confirmation_height: r.confirmation_height,
    }
}

/// `s` without the coins of outpoint `op`.
pub open spec fn remove_coin(s: Seq<Coin>, op: u64) -> Seq<Coin>
    decreases s.len(),
{
    if s.len() == 0 {
        Seq::empty()
    } else if s.last().outpoint == op {
        remove_coin(s.drop_last(), op)
    } else {
        remove_coin(s.drop_last(), op).push(s.last())
    }
}

/// `s` with every coin of `r`'s outpoint replaced by `r`'s coin.
pub open spec fn replace_coin(s: Seq<Coin>, r: CoinRecord) -> Seq<Coin> {
    s.map_values(
        |c: Coin|
            if c.outpoint == r.outpoint {
                coin_of(r)
            } else {
                c
            },
    )
}

/// Insert or replace: replace in place when the outpoint is present,
/// append otherwise.
pub open spec fn upsert_coin(s: Seq<Coin>, r: CoinRecord) -> Seq<Coin> {
    if has_outpoint(s, r.outpoint) {
        replace_coin(s, r)
    } else {
        s.push(coin_of(r))
    }
}

/// The effect of one record on the coin sequence.
pub open spec fn step_coins(s: Seq<Coin>, r: CoinRecord) -> Seq<Coin> {
    if r.spent {
        remove_coin(s, r.outpoint)
    } else {
        upsert_coin(s, r)
    }
}

/// The effect of a whole update, record by record, in order.
pub open spec fn apply_coins(s: Seq<Coin>, rs: Seq<CoinRecord>) -> Seq<Coin>
    decreases rs.len(),
{
    if rs.len() == 0 {
        s
    } else {
        apply_coins(step_coins(s, rs[0]), rs.skip(1))
    }
}

/// A record on branch `kc` reveals its index: the next unused index is
/// advanced past it and never moves back.
pub open spec fn bump_next(n: int, r: CoinRecord, kc: Keychain) -> int {
    if r.keychain == kc && r.derivation_index + 1 > n {
        r.derivation_index + 1
    } else {
        n
    }
}

/// The next unused index of branch `kc` after a whole update.
pub open spec fn apply_next(n: int, rs: Seq<CoinRecord>, kc: Keychain) -> int
    decreases rs.len(),
{
    if rs.len() == 0 {
        n
    } else {
        apply_next(bump_next(n, rs[0], kc), rs.skip(1), kc)
    }
}

/// The whole state after an update: coins merged, indices advanced,
/// reservations and configuration untouched.
pub open spec fn spec_apply(m: StateModel, rs: Seq<CoinRecord>) -> StateModel {
    StateModel {
        coins: apply_coins(m.coins, rs),
        next_external: apply_next(m.next_external, rs, Keychain::External),
        next_internal: apply_next(m.next_internal, rs, Keychain::Internal),
        ..m
    }
}

/// Folding one more record at the end.
pub proof fn lemma_apply_coins_push(s: Seq<Coin>, rs: Seq<CoinRecord>, r: CoinRecord)
    ensures
        apply_coins(s, rs.push(r)) == step_coins(apply_coins(s, rs), r),
    decreases rs.len(),
{
    if rs.len() == 0 {
        assert(rs.push(r)[0] == r);
        assert(rs.push(r).skip(1) =~= Seq::<CoinRecord>::empty());
        assert(apply_coins(step_coins(s, r), Seq::<CoinRecord>::empty()) == step_coins(s, r));
        assert(apply_coins(s, rs.push(r)) == apply_coins(step_coins(s, r), rs.push(r).skip(1)));
    } else {
        assert(rs.push(r)[0] == rs[0]);
        assert(rs.push(r).skip(1) =~= rs.skip(1).push(r));
        lemma_apply_coins_push(step_coins(s, rs[0]), rs.skip(1), r);
        assert(apply_coins(s, rs.push(r)) == apply_coins(
            step_coins(s, rs[0]),
            rs.push(r).skip(1),
        ));
        assert(apply_coins(s, rs) == apply_coins(step_coins(s, rs[0]), rs.skip(1)));
    }
}

/// Folding one more record at the end, for the index.
pub proof fn lemma_apply_next_push(n: int, rs: Seq<CoinRecord>, r: CoinRecord, kc: Keychain)
    ensures
        apply_next(n, rs.push(r), kc) == bump_next(apply_next(n, rs, kc), r, kc),
    decreases rs.len(),
{
    if rs.len() == 0 {
        assert(rs.push(r)[0] == r);
        assert(rs.push(r).skip(1) =~= Seq::<CoinRecord>::empty());
        assert(apply_next(bump_next(n, r, kc), Seq::<CoinRecord>::empty(), kc) == bump_next(
            n,
            r,
            kc,
        ));
        assert(apply_next(n, rs.push(r), kc) == apply_next(
            bump_next(n, r, kc),
            rs.push(r).skip(1),
            kc,
        ));
    } else {
        assert(rs.push(r)[0] == rs[0]);
        assert(rs.push(r).skip(1) =~= rs.skip(1).push(r));
        lemma_apply_next_push(bump_next(n, rs[0], kc), rs.skip(1), r, kc);
        assert(apply_next(n, rs.push(r), kc) == apply_next(
            bump_next(n, rs[0], kc),
            rs.push(r).skip(1),
            kc,
        ));
        assert(apply_next(n, rs, kc) == apply_next(bump_next(n, rs[0], kc), rs.skip(1), kc));
    }
}

/// What removal does to presence and distinctness.
pub proof fn lemma_remove_props(s: Seq<Coin>, op: u64)
    requires
        distinct_outpoints(s),
    ensures
        distinct_outpoints(remove_coin(s, op)),
        forall|p: u64| has_outpoint(remove_coin(s, op), p) <==> (has_outpoint(s, p) && p != op),
        forall|i: int|
            0 <= i < remove_coin(s, op).len() ==> s.contains(#[trigger] remove_coin(s, op)[i]),
    decreases s.len(),
{
    let res = remove_coin(s, op);
    if s.len() == 0 {
        assert(forall|p: u64| !has_outpoint(s, p));
    } else {
        let pre = s.drop_last();
        assert(distinct_outpoints(pre));
        lemma_remove_props(pre, op);
        assert(forall|p: u64|
            has_outpoint(s, p) <==> (has_outpoint(pre, p) || s.last().outpoint == p)) by {
            assert forall|p: u64| has_outpoint(s, p) implies (has_outpoint(pre, p)
                || s.last().outpoint == p) by {
                let i = choose|i: int| 0 <= i < s.len() && (#[trigger] s[i]).outpoint == p;
                if i < s.len() - 1 {
                    assert(pre[i].outpoint == p);
                }
            }
            assert forall|p: u64| has_outpoint(pre, p) implies has_outpoint(s, p) by {
                let i = choose|i: int| 0 <= i < pre.len() && (#[trigger] pre[i]).outpoint == p;
                assert(s[i].outpoint == p);
            }
            assert(s[s.len() - 1] == s.last());
        }
        if s.last().outpoint == op {
            assert(res == remove_coin(pre, op));
        } else {
            let prev = remove_coin(pre, op);
            assert(res == prev.push(s.last()));
            // the appended coin's outpoint is fresh in `prev`
            assert forall|i: int| 0 <= i < pre.len() implies (#[trigger] pre[i]).outpoint
                != s.last().outpoint by {
                assert(s[i] == pre[i]);
                assert(s[s.len() - 1] == s.last());
            }
            assert(!has_outpoint(prev, s.last().outpoint)) by {
                if has_outpoint(prev, s.last().outpoint) {
                    let i = choose|i: int|
                        0 <= i < prev.len() && (#[trigger] prev[i]).outpoint == s.last().outpoint;
                    assert(pre.contains(prev[i]));
                }
            }
            assert(distinct_outpoints(res)) by {
                assert forall|i: int, j: int| 0 <= i < j < res.len() implies (
                #[trigger] res[i]).outpoint != (#[trigger] res[j]).outpoint by {
                    if j < res.len() - 1 {
                        assert(res[i] == prev[i] && res[j] == prev[j]);
                    } else {
                        assert(res[j] == s.last());
                        assert(res[i] == prev[i]);
                    }
                }
            }
            assert forall|p: u64| has_outpoint(res, p) implies (has_outpoint(s, p) && p != op) by {
                let i = choose|i: int| 0 <= i < res.len() && (#[trigger] res[i]).outpoint == p;
                if i < res.len() - 1 {
                    assert(prev[i].outpoint == p);
                } else {
                    assert(res[i] == s.last());
                }
            }
            assert forall|p: u64| has_outpoint(s, p) && p != op implies has_outpoint(res, p) by {
                if has_outpoint(pre, p) {
                    let i = choose|i: int|
                        0 <= i < prev.len() && (#[trigger] prev[i]).outpoint == p;
                    assert(res[i].outpoint == p);
                } else {
                    assert(s.last().outpoint == p);
                    assert(res[res.len() - 1].outpoint == p);
                }
            }
            assert forall|i: int| 0 <= i < res.len() implies s.contains(#[trigger] res[i]) by {
                if i < res.len() - 1 {
                    assert(pre.contains(prev[i]));
                    let j = choose|j: int| 0 <= j < pre.len() && pre[j] == prev[i];
                    assert(s[j] == res[i]);
                } else {
                    assert(res[i] == s[s.len() - 1]);
                }
            }
        }
    }
}

/// Whether some record of `rs` concerns outpoint `op`.
pub open spec fn touches(rs: Seq<CoinRecord>, op: u64) -> bool {
    exists|i: int| 0 <= i < rs.len() && (#[trigger] rs[i]).outpoint == op
}

/// Membership in a removal: exactly the coins of other outpoints.
pub proof fn lemma_remove_contains(s: Seq<Coin>, op: u64)
    ensures
        forall|c: Coin|
            #[trigger] remove_coin(s, op).contains(c) <==> (s.contains(c) && c.outpoint != op),
    decreases s.len(),
{
    let res = remove_coin(s, op);
    if s.len() == 0 {
    } else {
        let pre = s.drop_last();
        lemma_remove_contains(pre, op);
        assert(forall|c: Coin| s.contains(c) <==> (pre.contains(c) || c == s.last())) by {
            assert forall|c: Coin| s.contains(c) implies (pre.contains(c) || c == s.last()) by {
                let i = choose|i: int| 0 <= i < s.len() && s[i] == c;
                if i < s.len() - 1 {
                    assert(pre[i] == c);
                }
            }
            assert forall|c: Coin| pre.contains(c) implies s.contains(c) by {
                let i = choose|i: int| 0 <= i < pre.len() && pre[i] == c;
                assert(s[i] == c);
            }
            assert(s[s.len() - 1] == s.last());
        }
        if s.last().outpoint == op {
            assert forall|c: Coin| #[trigger] res.contains(c) implies (s.contains(c)
                && c.outpoint != op) by {
                assert(remove_coin(pre, op).contains(c));
                assert(pre.contains(c));
                assert(s.contains(c));
            }
            assert forall|c: Coin| s.contains(c) && c.outpoint != op implies res.contains(c) by {
                assert(c != s.last());
                assert(pre.contains(c));
                assert(remove_coin(pre, op).contains(c));
            }
        } else {
            let prev = remove_coin(pre, op);
            assert forall|c: Coin| #[trigger] res.contains(c) implies (s.contains(c)
                && c.outpoint != op) by {
                let i = choose|i: int| 0 <= i < res.len() && res[i] == c;
                if i < res.len() - 1 {
                    assert(prev[i] == c);
                    assert(prev.contains(c));
                    assert(pre.contains(c));
                    assert(s.contains(c));
                } else {
                    assert(c == s.last());
                    assert(s.contains(c));
                }
            }
            assert forall|c: Coin| s.contains(c) && c.outpoint != op implies res.contains(c) by {
                if pre.contains(c) {
                    assert(prev.contains(c));
                    let i = choose|i: int| 0 <= i < prev.len() && prev[i] == c;
                    assert(res[i] == c);
                } else {
                    assert(c == s.last());
                    assert(res[res.len() - 1] == c);
                }
            }
        }
    }
}

/// Removing an absent outpoint changes nothing.
pub proof fn lemma_remove_noop(s: Seq<Coin>, op: u64)
    requires
        !has_outpoint(s, op),
    ensures
        remove_coin(s, op) == s,
    decreases s.len(),
{
    if s.len() > 0 {
        let pre = s.drop_last();
        assert(!has_outpoint(pre, op)) by {
            if has_outpoint(pre, op) {
                let i = choose|i: int| 0 <= i < pre.len() && (#[trigger] pre[i]).outpoint == op;
                assert(s[i].outpoint == op);
            }
        }
        lemma_remove_noop(pre, op);
        assert(s[s.len() - 1] == s.last());
        assert(s.last().outpoint != op);
        assert(remove_coin(s, op) =~= s);
    } else {
        assert(remove_coin(s, op) =~= s);
    }
}

/// A step keeps outpoints distinct.
pub proof fn lemma_step_distinct(s: Seq<Coin>, r: CoinRecord)
    requires
        distinct_outpoints(s),
    ensures
        distinct_outpoints(step_coins(s, r)),
{
    let res = step_coins(s, r);
    if r.spent {
        lemma_remove_props(s, r.outpoint);
    } else if has_outpoint(s, r.outpoint) {
        assert(forall|i: int|
            0 <= i < res.len() ==> (#[trigger] res[i]).outpoint == s[i].outpoint);
    } else {
        assert forall|i: int, j: int| 0 <= i < j < res.len() implies (#[trigger] res[i]).outpoint
            != (#[trigger] res[j]).outpoint by {
            if j < res.len() - 1 {
                assert(res[i] == s[i] && res[j] == s[j]);
            } else {
                assert(res[i] == s[i] && res[j] == coin_of(r));
            }
        }
    }
}

/// A step about one outpoint leaves every other outpoint's coin alone.
pub proof fn lemma_step_untouched(s: Seq<Coin>, r: CoinRecord, op: u64)
    requires
        r.outpoint != op,
    ensures
        has_outpoint(step_coins(s, r), op) <==> has_outpoint(s, op),
        forall|c: Coin|
            c.outpoint == op ==> (#[trigger] step_coins(s, r).contains(c) <==> s.contains(c)),
{
    let res = step_coins(s, r);
    if r.spent {
        lemma_remove_contains(s, r.outpoint);
        assert forall|p: u64| has_outpoint(res, p) && p != r.outpoint implies has_outpoint(
            s,
            p,
        ) by {
            let i = choose|i: int| 0 <= i < res.len() && (#[trigger] res[i]).outpoint == p;
            assert(res.contains(res[i]));
        }
        assert forall|p: u64| has_outpoint(s, p) && p != r.outpoint implies has_outpoint(
            res,
            p,
        ) by {
            let i = choose|i: int| 0 <= i < s.len() && (#[trigger] s[i]).outpoint == p;
            assert(s.contains(s[i]));
            assert(res.contains(s[i]));
            let j = choose|j: int| 0 <= j < res.len() && res[j] == s[i];
        }
    } else if has_outpoint(s, r.outpoint) {
        assert(forall|i: int|
            0 <= i < res.len() ==> #[trigger] res[i] == if s[i].outpoint == r.outpoint {
                coin_of(r)
            } else {
                s[i]
            });
        assert forall|c: Coin| c.outpoint == op && #[trigger] res.contains(c) implies s.contains(
            c,
        ) by {
            let i = choose|i: int| 0 <= i < res.len() && res[i] == c;
            assert(coin_of(r).outpoint == r.outpoint);
            assert(res[i] == s[i]);
        }
        assert forall|c: Coin| c.outpoint == op && s.contains(c) implies res.contains(c) by {
            let i = choose|i: int| 0 <= i < s.len() && s[i] == c;
            assert(res[i] == c);
        }
        assert forall|p: u64| has_outpoint(res, p) && p != r.outpoint implies has_outpoint(
            s,
            p,
        ) by {
            let i = choose|i: int| 0 <= i < res.len() && (#[trigger] res[i]).outpoint == p;
            assert(res[i] == s[i]);
        }
        assert forall|p: u64| has_outpoint(s, p) && p != r.outpoint implies has_outpoint(
            res,
            p,
        ) by {
            let i = choose|i: int| 0 <= i < s.len() && (#[trigger] s[i]).outpoint == p;
            assert(res[i] == s[i]);
        }
    } else {
        assert forall|c: Coin| c.outpoint == op && #[trigger] res.contains(c) implies s.contains(
            c,
        ) by {
            let i = choose|i: int| 0 <= i < res.len() && res[i] == c;
            assert(i < res.len() - 1 || res[i] == coin_of(r));
            assert(s[i] == c);
        }
        assert forall|c: Coin| c.outpoint == op && s.contains(c) implies res.contains(c) by {
            let i = choose|i: int| 0 <= i < s.len() && s[i] == c;
            assert(res[i] == c);
        }
        assert forall|p: u64| has_outpoint(res, p) && p != r.outpoint implies has_outpoint(
            s,
            p,
        ) by {
            let i = choose|i: int| 0 <= i < res.len() && (#[trigger] res[i]).outpoint == p;
            assert(i == res.len() - 1 ==> res[i] == coin_of(r));
            assert(s[i].outpoint == p);
        }
        assert forall|p: u64| has_outpoint(s, p) && p != r.outpoint implies has_outpoint(
            res,
            p,
        ) by {
            let i = choose|i: int| 0 <= i < s.len() && (#[trigger] s[i]).outpoint == p;
            assert(res[i] == s[i]);
        }
    }
}

/// Applying records that never mention `op` leaves `op`'s coin alone.
pub proof fn lemma_apply_untouched(s: Seq<Coin>, rs: Seq<CoinRecord>, op: u64)
    requires
        !touches(rs, op),
    ensures
        has_outpoint(apply_coins(s, rs), op) <==> has_outpoint(s, op),
        forall|c: Coin|
            c.outpoint == op ==> (#[trigger] apply_coins(s, rs).contains(c) <==> s.contains(c)),
    decreases rs.len(),
{
    if rs.len() > 0 {
        assert(rs[0].outpoint != op);
        lemma_step_untouched(s, rs[0], op);
        assert(!touches(rs.skip(1), op)) by {
            if touches(rs.skip(1), op) {
                let i = choose|i: int|
                    0 <= i < rs.skip(1).len() && (#[trigger] rs.skip(1)[i]).outpoint == op;
                assert(rs[i + 1].outpoint == op);
            }
        }
        lemma_apply_untouched(step_coins(s, rs[0]), rs.skip(1), op);
    }
}

/// Application keeps outpoints distinct.
pub proof fn lemma_apply_distinct(s: Seq<Coin>, rs: Seq<CoinRecord>)
    requires
        distinct_outpoints(s),
    ensures
        distinct_outpoints(apply_coins(s, rs)),
    decreases rs.len(),
{
    if rs.len() > 0 {
        lemma_step_distinct(s, rs[0]);
        lemma_apply_distinct(step_coins(s, rs[0]), rs.skip(1));
    }
}

/// After an insert step, the record's coin is present.
pub proof fn lemma_upsert_present(s: Seq<Coin>, r: CoinRecord)
    requires
        !r.spent,
    ensures
        has_outpoint(step_coins(s, r), r.outpoint),
        step_coins(s, r).contains(coin_of(r)),
{
    let res = step_coins(s, r);
    if has_outpoint(s, r.outpoint) {
        let i = choose|i: int| 0 <= i < s.len() && (#[trigger] s[i]).outpoint == r.outpoint;
        assert(res[i] == coin_of(r));
    } else {
        assert(res[res.len() - 1] == coin_of(r));
    }
}

/// Replacing a coin by itself changes nothing.
pub proof fn lemma_replace_identity(s: Seq<Coin>, r: CoinRecord)
    requires
        distinct_outpoints(s),
        s.contains(coin_of(r)),
    ensures
        replace_coin(s, r) == s,
{
    let j = choose|j: int| 0 <= j < s.len() && s[j] == coin_of(r);
    assert forall|i: int| 0 <= i < s.len() implies #[trigger] replace_coin(s, r)[i] == s[i] by {
        if s[i].outpoint == r.outpoint {
            assert(s[j].outpoint == r.outpoint);
            assert(i == j);
        }
    }
    assert(replace_coin(s, r) =~= s);
}

/// Applying the same records again changes nothing: each record finds the
/// outpoint already in the state it prescribes.
pub proof fn lemma_apply_coins_idempotent(s: Seq<Coin>, rs: Seq<CoinRecord>)
    requires
        distinct_outpoints(s),
        forall|i: int, j: int|
            0 <= i < j < rs.len() ==> (#[trigger] rs[i]).outpoint != (#[trigger] rs[j]).outpoint,
    ensures
        apply_coins(apply_coins(s, rs), rs) == apply_coins(s, rs),
    decreases rs.len(),
{
    if rs.len() > 0 {
        let r = rs[0];
        let rest = rs.skip(1);
        let s1 = step_coins(s, r);
        let a = apply_coins(s1, rest);
        lemma_step_distinct(s, r);
        lemma_apply_distinct(s1, rest);
        assert(forall|i: int, j: int|
            0 <= i < j < rest.len() ==> (#[trigger] rest[i]).outpoint != (
            #[trigger] rest[j]).outpoint) by {
            assert(forall|i: int| 0 <= i < rest.len() ==> #[trigger] rest[i] == rs[i + 1]);
        }
        assert(!touches(rest, r.outpoint)) by {
            if touches(rest, r.outpoint) {
                let i = choose|i: int|
                    0 <= i < rest.len() && (#[trigger] rest[i]).outpoint == r.outpoint;
                assert(rs[i + 1].outpoint == r.outpoint);
            }
        }
        lemma_apply_coins_idempotent(s1, rest);
        lemma_apply_untouched(s1, rest, r.outpoint);
        if r.spent {
            lemma_remove_contains(s, r.outpoint);
            assert(s1 == remove_coin(s, r.outpoint));
            assert(!has_outpoint(s1, r.outpoint)) by {
                if has_outpoint(s1, r.outpoint) {
                    let i = choose|i: int|
                        0 <= i < s1.len() && (#[trigger] s1[i]).outpoint == r.outpoint;
                    assert(s1.contains(s1[i]));
                    assert(remove_coin(s, r.outpoint).contains(s1[i]));
                }
            }
            assert(!has_outpoint(a, r.outpoint));
            lemma_remove_noop(a, r.outpoint);
            assert(step_coins(a, r) == a);
        } else {
            lemma_upsert_present(s, r);
            assert(a.contains(coin_of(r)));
            assert(has_outpoint(a, r.outpoint)) by {
                let i = choose|i: int| 0 <= i < a.len() && a[i] == coin_of(r);
            }
            lemma_replace_identity(a, r);
            assert(step_coins(a, r) == a);
        }
        // apply_coins(a, rs) unfolds to apply_coins(step_coins(a, r), rest)
        assert(apply_coins(a, rs) == apply_coins(step_coins(a, rs[0]), rs.skip(1)));
        assert(apply_coins(a, rest) == a);
    }
}

/// The advanced index absorbs a second pass.
pub proof fn lemma_apply_next_ge(n: int, rs: Seq<CoinRecord>, kc: Keychain)
    ensures
        apply_next(n, rs, kc) >= n,
        forall|i: int|
            0 <= i < rs.len() && (#[trigger] rs[i]).keychain == kc ==> apply_next(n, rs, kc)
                >= rs[i].derivation_index + 1,
    decreases rs.len(),
{
    if rs.len() > 0 {
        lemma_apply_next_ge(bump_next(n, rs[0], kc), rs.skip(1), kc);
        assert forall|i: int|
            0 <= i < rs.len() && (#[trigger] rs[i]).keychain == kc implies apply_next(n, rs, kc)
            >= rs[i].derivation_index + 1 by {
            if i == 0 {
                assert(bump_next(n, rs[0], kc) >= rs[0].derivation_index + 1);
            } else {
                assert(rs.skip(1)[i - 1] == rs[i]);
            }
        }
    }
}

/// An index already past every revealed index does not move.
pub proof fn lemma_apply_next_absorb(n: int, rs: Seq<CoinRecord>, kc: Keychain)
    requires
        forall|i: int|
            0 <= i < rs.len() && (#[trigger] rs[i]).keychain == kc ==> rs[i].derivation_index + 1
                <= n,
    ensures
        apply_next(n, rs, kc) == n,
    decreases rs.len(),
{
    if rs.len() > 0 {
        assert(bump_next(n, rs[0], kc) == n);
        assert(forall|i: int| 0 <= i < rs.skip(1).len() ==> #[trigger] rs.skip(1)[i] == rs[i + 1]);
        lemma_apply_next_absorb(n, rs.skip(1), kc);
    }
}

/// Advancing the next unused index by the same records again changes
/// nothing.
pub proof fn lemma_apply_next_idempotent(n: int, rs: Seq<CoinRecord>, kc: Keychain)
    ensures
        apply_next(apply_next(n, rs, kc), rs, kc) == apply_next(n, rs, kc),
{
    lemma_apply_next_ge(n, rs, kc);
    lemma_apply_next_absorb(apply_next(n, rs, kc), rs, kc);
}

/// Applying the same chain update twice leaves exactly the state of one
/// application: balances are not double-counted and no output duplicated.
pub proof fn lemma_apply_update_idempotent(m: StateModel, u: ChainUpdate)
    requires
        distinct_outpoints(m.coins),
        u.wf(),
    ensures
        spec_apply(spec_apply(m, u.records@), u.records@) == spec_apply(m, u.records@),
{
    lemma_apply_coins_idempotent(m.coins, u.records@);
    lemma_apply_next_idempotent(m.next_external, u.records@, Keychain::External);
    lemma_apply_next_idempotent(m.next_internal, u.records@, Keychain::Internal);
}

/// Whether a coin's derivation index lies below the next unused index of
/// its branch.
pub open spec fn idx_bound(c: Coin, ne: int, ni: int) -> bool {
    match c.keychain {
        Keychain::External => (c.derivation_index as int) < ne,
        Keychain::Internal => (c.derivation_index as int) < ni,
    }
}

/// Removal, one prefix step at a time.
pub proof fn lemma_remove_take_step(s: Seq<Coin>, op: u64, i: int)
    requires
        0 <= i < s.len(),
    ensures
        remove_coin(s.take(i + 1), op) == if s[i].outpoint == op {
            remove_coin(s.take(i), op)
        } else {
            remove_coin(s.take(i), op).push(s[i])
        },
{
    assert(s.take(i + 1).drop_last() =~= s.take(i));
    assert(s.take(i + 1).last() == s[i]);
}

/// A record's coin, built in executable code.
pub fn coin_of_record(r: &CoinRecord) -> (c: Coin)
    ensures
        c == coin_of(*r),
{
    Coin {
        outpoint: r.outpoint,
        value_sat: r.value_sat,
        keychain: r.keychain,
        derivation_index: r.derivation_index,
        confirmation_height: r.confirmation_height,
    }
}

/// Position of the coin with outpoint `op`, if any.
pub fn find_outpoint(coins: &Vec<Coin>, op: u64) -> (r: Option<usize>)
    ensures
        match r {
            Some(i) => i < coins@.len() && coins@[i as int].outpoint == op,
            None => !has_outpoint(coins@, op),
        },
{
    let mut i: usize = 0;
    while i < coins.len()
        invariant
            0 <= i <= coins@.len(),
            forall|j: int| 0 <= j < i ==> (#[trigger] coins@[j]).outpoint != op,
        decreases coins@.len() - i,
    {
        if coins[i].outpoint == op {
            return Some(i);
        }
        i += 1;
    }
    None
}

/// Applies one record to the coin list in place.
pub fn step_record(coins: &mut Vec<Coin>, r: &CoinRecord)
    requires
        distinct_outpoints(old(coins)@),
    ensures
        final(coins)@ == step_coins(old(coins)@, *r),
        distinct_outpoints(final(coins)@),
{
    if r.spent {
        let ghost orig = coins@;
        let mut out: Vec<Coin> = Vec::new();
        let mut i: usize = 0;
        while i < coins.len()
            invariant
                0 <= i <= coins@.len(),
                coins@ == orig,
                out@ == remove_coin(orig.take(i as int), r.outpoint),
            decreases coins@.len() - i,
        {
            proof {
                lemma_remove_take_step(orig, r.outpoint, i as int);
            }
            let c = coins[i];
            if c.outpoint != r.outpoint {
                out.push(c);
            }
            i += 1;
        }
        proof {
            assert(orig.take(orig.len() as int) =~= orig);
            lemma_remove_props(orig, r.outpoint);
        }
        *coins = out;
    } else {
        match find_outpoint(coins, r.outpoint) {
            Some(i) => {
                let ghost orig = coins@;
                let c = coin_of_record(r);
                coins.set(i, c);
                proof {
                    assert(coins@ =~= replace_coin(orig, *r));
                    assert(forall|j: int|
                        0 <= j < coins@.len() ==> (#[trigger] coins@[j]).outpoint
                            == orig[j].outpoint);
                }
            },
            None => {
                let ghost orig = coins@;
                let c = coin_of_record(r);
                coins.push(c);
                proof {
                    assert(distinct_outpoints(coins@)) by {
                        assert forall|i: int, j: int| 0 <= i < j < coins@.len() implies (
                        #[trigger] coins@[i]).outpoint != (#[trigger] coins@[j]).outpoint by {
                            if j < coins@.len() - 1 {
                                assert(coins@[i] == orig[i] && coins@[j] == orig[j]);
                            } else {
                                assert(coins@[i] == orig[i]);
                                assert(!has_outpoint(orig, r.outpoint));
                            }
                        }
                    }
                }
            },
        }
    }
}

/// A step keeps every coin's index below the (possibly advanced) next
/// unused index of its branch.
pub proof fn lemma_step_index_bound(s: Seq<Coin>, r: CoinRecord, ne: int, ni: int)
    requires
        distinct_outpoints(s),
        forall|i: int| 0 <= i < s.len() ==> idx_bound(#[trigger] s[i], ne, ni),
        idx_bound(coin_of(r), ne, ni),
    ensures
        forall|i: int|
            0 <= i < step_coins(s, r).len() ==> idx_bound(#[trigger] step_coins(s, r)[i], ne, ni),
{
    let res = step_coins(s, r);
    if r.spent {
        lemma_remove_props(s, r.outpoint);
        assert forall|i: int| 0 <= i < res.len() implies idx_bound(#[trigger] res[i], ne, ni) by {
            assert(s.contains(res[i]));
            let j = choose|j: int| 0 <= j < s.len() && s[j] == res[i];
        }
    } else if has_outpoint(s, r.outpoint) {
        assert forall|i: int| 0 <= i < res.len() implies idx_bound(#[trigger] res[i], ne, ni) by {
            assert(res[i] == if s[i].outpoint == r.outpoint {
                coin_of(r)
            } else {
                s[i]
            });
        }
    } else {
        assert forall|i: int| 0 <= i < res.len() implies idx_bound(#[trigger] res[i], ne, ni) by {
            if i < res.len() - 1 {
                assert(res[i] == s[i]);
            } else {
                assert(res[i] == coin_of(r));
            }
        }
    }
}

/// Whether the coins' total value exceeds the supply cap.
pub fn total_exceeds_cap(coins: &Vec<Coin>) -> (r: bool)
    ensures
        r == (total_value(coins@) > MAX_MONEY_SAT),
{
    let mut acc: u64 = 0;
    let mut i: usize = 0;
    while i < coins.len()
        invariant
            0 <= i <= coins@.len(),
            acc as int == total_value(coins@.take(i as int)),
            acc <= MAX_MONEY_SAT,
        decreases coins@.len() - i,
    {
        proof {
            lemma_total_take_step(coins@, i as int);
            lemma_total_prefix_le(coins@, i as int + 1);
        }
        let c = coins[i];
        if c.value_sat > MAX_MONEY_SAT - acc {
            return true;
        }
        acc = acc + c.value_sat;
        i += 1;
    }
    proof {
        assert(coins@.take(coins@.len() as int) =~= coins@);
    }
    false
}

/// A copy of the coin list.
pub fn clone_coins(coins: &Vec<Coin>) -> (r: Vec<Coin>)
    ensures
        r@ == coins@,
{
    let mut out: Vec<Coin> = Vec::new();
    let mut i: usize = 0;
    while i < coins.len()
        invariant
            0 <= i <= coins@.len(),
            out@ == coins@.take(i as int),
        decreases coins@.len() - i,
    {
        out.push(coins[i]);
        proof {
            assert(out@ =~= coins@.take(i as int + 1));
        }
        i += 1;
    }
    proof {
        assert(coins@.take(coins@.len() as int) =~= coins@);
    }
    out
}

impl WalletState {
    /// Applies a chain update: merges each record in order and advances the
    /// revealed derivation indices. The merge is computed aside and only
    /// committed whole, so a rejected update leaves the state untouched.
    /// Rejection happens exactly when the merged coins would exceed the
    /// total money supply, a sign of corrupt chain data; the caller must
    /// treat it as fatal.
    pub fn apply_update(&mut self, u: &ChainUpdate) -> (r: Result<(), ErrorResponse>)
        requires
            old(self).wf(),
            u.wf(),
        ensures
            final(self).wf(),
            r is Ok ==> final(self).model() == spec_apply(old(self).model(), u.records@),
            r is Ok <==> total_value(apply_coins(old(self).model().coins, u.records@))
                <= MAX_MONEY_SAT,
            r is Err ==> *final(self) == *old(self) && r->Err_0.kind == ErrorKind::Fatal,
    {
        let ghost orig = *self;
        let mut new_coins = clone_coins(&self.coins);
        let mut next_ext: u32 = self.next_external_index;
        let mut next_int: u32 = self.next_internal_index;
        let mut k: usize = 0;
        while k < u.records.len()
            invariant
                *self == orig,
                orig.wf(),
                u.wf(),
                0 <= k <= u.records@.len(),
                new_coins@ == apply_coins(orig.coins@, u.records@.take(k as int)),
                next_ext as int == apply_next(
                    orig.next_external_index as int,
                    u.records@.take(k as int),
                    Keychain::External,
                ),
                next_int as int == apply_next(
                    orig.next_internal_index as int,
                    u.records@.take(k as int),
                    Keychain::Internal,
                ),
                distinct_outpoints(new_coins@),
                forall|i: int|
                    0 <= i < new_coins@.len() ==> idx_bound(
                        #[trigger] new_coins@[i],
                        next_ext as int,
                        next_int as int,
                    ),
            decreases u.records@.len() - k,
        {
            let rec = u.records[k];
            let ghost pre_ext = next_ext as int;
            let ghost pre_int = next_int as int;
            if matches!(rec.keychain, Keychain::External) {
                if rec.derivation_index >= next_ext {
                    next_ext = rec.derivation_index + 1;
                }
            } else {
                if rec.derivation_index >= next_int {
                    next_int = rec.derivation_index + 1;
                }
            }
            proof {
                assert(u.records@.take(k as int + 1) =~= u.records@.take(k as int).push(rec));
                lemma_apply_next_push(
                    orig.next_external_index as int,
                    u.records@.take(k as int),
                    rec,
                    Keychain::External,
                );
                lemma_apply_next_push(
                    orig.next_internal_index as int,
                    u.records@.take(k as int),
                    rec,
                    Keychain::Internal,
                );
                lemma_apply_coins_push(orig.coins@, u.records@.take(k as int), rec);
                lemma_step_index_bound(new_coins@, rec, next_ext as int, next_int as int);
            }
            step_record(&mut new_coins, &rec);
            k += 1;
        }
        proof {
            assert(u.records@.take(u.records@.len() as int) =~= u.records@);
        }
        if total_exceeds_cap(&new_coins) {
            return Err(
                ErrorResponse {
                    kind: ErrorKind::Fatal,
                    message: String::from_str("chain update exceeds the total money supply"),
                },
            );
        }
        self.coins = new_coins;
        self.next_external_index = next_ext;
        self.next_internal_index = next_int;
        Ok(())
    }
}

} // verus!
