//! Receiver-share splits: which address gets which part of a denomination.
use crate::bank::{bank_send, push_send, sends_total, sends_view, BankSend, Coin, SendView};
use crate::decimal::{Decimal, AMOUNT_MAX, DECIMAL_FRACTIONAL};
use crate::keyed::{find_key, has_key, keys_distinct, lookup};
use vstd::arithmetic::div_mod::{lemma_fundamental_div_mod, lemma_div_pos_is_pos};
use vstd::prelude::*;

verus! {

/// Why a split was refused or could not be applied.
#[derive(Clone, Copy, Debug, PartialEq, Eq, Structural)]
pub enum SplitError {
    /// The shares do not add up to exactly one.
    SharesDoNotSumToOne,
    /// A receiver that the operation needs is not in the split.
    ReceiverNotFound,
    /// A product of an amount and a share does not fit in an amount.
    MultiplyOverflow,
    /// A penalty would take a share below zero, or names one receiver twice.
    PenaltyOutOfRange,
    /// A denomination with an explicit split cannot go through the fallback.
    UnauthorizedDenomDistribution,
    /// No fallback split is configured.
    NoFallbackSplit,
}

/// A map from receiver address to its share of a denomination.
#[derive(Clone, Debug)]
pub struct SplitConfig {
    pub receivers: Vec<(String, Decimal)>,
}

/// The sum of the shares, in atomics.
pub open spec fn share_sum(s: Seq<(String, Decimal)>) -> int
    decreases s.len(),
{
    if s.len() == 0 {
        0
    } else {
        share_sum(s.drop_last()) + s.last().1.atomics
    }
}

/// The share a receiver gets once a filter for a single receiver applies.
pub open spec fn effective_share(
    addr: Seq<char>,
    share: Decimal,
    filter: Option<Seq<char>>,
) -> int {
    match filter {
        Some(f) => if f == addr {
            DECIMAL_FRACTIONAL as int
        } else {
            0
        },
        None => share.atomics as int,
    }
}

/// `floor(amount × atomics / 10^18)`.
pub open spec fn floor_share(amount: int, atomics: int) -> int {
    amount * atomics / DECIMAL_FRACTIONAL as int
}

/// The transfers that splitting `amount` of `denom` makes, in receiver order,
/// skipping receivers whose effective share is zero; `None` where an
/// entitlement does not fit in an amount.
pub open spec fn transfer_plan(
    rs: Seq<(String, Decimal)>,
    amount: int,
    denom: Seq<char>,
    filter: Option<Seq<char>>,
) -> Option<Seq<SendView>>
    decreases rs.len(),
{
    if rs.len() == 0 {
        Some(Seq::<SendView>::empty())
    } else {
        match transfer_plan(rs.drop_last(), amount, denom, filter) {
            None => None,
            Some(prev) => {
                let e = effective_share(rs.last().0@, rs.last().1, filter);
                if e == 0 {
                    Some(prev)
                } else if floor_share(amount, e) > AMOUNT_MAX {
                    None
                } else {
                    Some(prev.push((rs.last().0@, denom, floor_share(amount, e))))
                }
            }
        }
    }
}

/// What a list of transfers that may have failed amounts to.
pub open spec fn sends_result(r: Result<Vec<BankSend>, SplitError>) -> Option<Seq<SendView>> {
    match r {
        Ok(v) => Some(sends_view(v@)),
        Err(_) => None,
    }
}

/// `s` with `penalty` moved from `rq`'s share to `cp`'s.
pub open spec fn penalized(
    s: Seq<(String, Decimal)>,
    rq: Seq<char>,
    cp: Seq<char>,
    penalty: int,
) -> Seq<(String, Decimal)> {
    s.map_values(
        |e: (String, Decimal)|
            if e.0@ == rq {
                (e.0, Decimal { atomics: (e.1.atomics - penalty) as u128 })
            } else if e.0@ == cp {
                (e.0, Decimal { atomics: (e.1.atomics + penalty) as u128 })
            } else {
                e
            },
    )
}

/// A penalty can be moved from `rq` to `cp` in `s`.
pub open spec fn penalty_applies(
    s: Seq<(String, Decimal)>,
    rq: Seq<char>,
    cp: Seq<char>,
    penalty: int,
) -> bool {
    &&& rq != cp
    &&& lookup(s, rq) is Some
    &&& lookup(s, cp) is Some
    &&& penalty <= lookup(s, rq).unwrap().atomics
    &&& lookup(s, cp).unwrap().atomics + penalty <= AMOUNT_MAX
}

/// The old receivers, each renamed to its new address; `None` where one of
/// the old addresses is missing.
pub open spec fn remapped(
    s: Seq<(String, Decimal)>,
    remaps: Seq<(String, String)>,
) -> Option<Seq<(Seq<char>, Decimal)>>
    decreases remaps.len(),
{
    if remaps.len() == 0 {
        Some(Seq::empty())
    } else {
        match remapped(s, remaps.drop_last()) {
            None => None,
            Some(prev) => match lookup(s, remaps.last().0@) {
                None => None,
                Some(d) => Some(prev.push((remaps.last().1@, d))),
            },
        }
    }
}

pub open spec fn receivers_view(s: Seq<(String, Decimal)>) -> Seq<(Seq<char>, Decimal)> {
    s.map_values(|e: (String, Decimal)| (e.0@, e.1))
}

impl SplitConfig {
    /// Receivers are listed once each.
    pub open spec fn wf(&self) -> bool {
        keys_distinct(self.receivers@)
    }

    /// The share of `addr`, if it is a receiver.
    pub open spec fn share(&self, addr: Seq<char>) -> Option<Decimal> {
        lookup(self.receivers@, addr)
    }

    /// Checks that the shares add up to exactly one.
    pub fn validate_shares(&self) -> (r: Result<(), SplitError>)
        ensures
            r is Ok <==> share_sum(self.receivers@) == DECIMAL_FRACTIONAL,
            r is Err ==> r == Err::<(), SplitError>(SplitError::SharesDoNotSumToOne),
    {
        let mut total: u128 = 0;
        let mut i: usize = 0;
        while i < self.receivers.len()
            invariant
                i <= self.receivers@.len(),
                total == share_sum(self.receivers@.take(i as int)),
                total <= DECIMAL_FRACTIONAL,
            decreases self.receivers@.len() - i,
        {
            proof {
                assert(self.receivers@.take(i as int + 1).drop_last() =~= self.receivers@.take(
                    i as int,
                ));
            }
            let share = self.receivers[i].1.atomics;
            if share > DECIMAL_FRACTIONAL - total {
                proof {
                    lemma_share_sum_prefix(self.receivers@, i as int + 1);
                }
                return Err(SplitError::SharesDoNotSumToOne);
            }
            total = total + share;
            i = i + 1;
        }
        proof {
            assert(self.receivers@.take(i as int) =~= self.receivers@);
        }
        if total != DECIMAL_FRACTIONAL {
            return Err(SplitError::SharesDoNotSumToOne);
        }
        Ok(())
    }

    /// Checks that both parties are receivers and that their shares add up
    /// to exactly one.
    pub fn validate(&self, party_a: &String, party_b: &String) -> (r: Result<(), SplitError>)
        ensures
            r == (if self.share(party_a@) is None || self.share(party_b@) is None {
                Err::<(), SplitError>(SplitError::ReceiverNotFound)
            } else if self.share(party_a@).unwrap().atomics + self.share(
                party_b@,
            ).unwrap().atomics != DECIMAL_FRACTIONAL {
                Err(SplitError::SharesDoNotSumToOne)
            } else {
                Ok(())
            }),
    {
        let ia = match find_key(&self.receivers, party_a) {
            Some(i) => i,
            None => return Err(SplitError::ReceiverNotFound),
        };
        let ib = match find_key(&self.receivers, party_b) {
            Some(i) => i,
            None => return Err(SplitError::ReceiverNotFound),
        };
        let a = self.receivers[ia].1.atomics;
        let b = self.receivers[ib].1.atomics;
        if a > DECIMAL_FRACTIONAL || b != DECIMAL_FRACTIONAL - a {
            return Err(SplitError::SharesDoNotSumToOne);
        }
        Ok(())
    }

    /// Bank transfers that split `amount` of `denom` among the receivers,
    /// `floor(amount × share)` each. With a filter, only that receiver is
    /// paid, with a share of one. Receivers whose share is zero are skipped.
    pub fn get_transfer_messages(
        &self,
        amount: u128,
        denom: &String,
        filter_addr: &Option<String>,
    ) -> (r: Result<Vec<BankSend>, SplitError>)
        ensures
            sends_result(r) == transfer_plan(
                self.receivers@,
                amount as int,
                denom@,
                filter_view(*filter_addr),
            ),
            r is Err ==> r == Err::<Vec<BankSend>, SplitError>(SplitError::MultiplyOverflow),
    {
        let ghost rs = self.receivers@;
        let ghost filter = filter_view(*filter_addr);
        let mut out: Vec<BankSend> = Vec::new();
        let mut i: usize = 0;
        proof {
            assert(rs.take(0) =~= Seq::<(String, Decimal)>::empty());
        }
        while i < self.receivers.len()
            invariant
                rs == self.receivers@,
                filter == filter_view(*filter_addr),
                i <= rs.len(),
                transfer_plan(rs.take(i as int), amount as int, denom@, filter) == Some(
                    sends_view(out@),
                ),
            decreases rs.len() - i,
        {
            proof {
                assert(rs.take(i as int + 1).drop_last() =~= rs.take(i as int));
            }
            let addr = &self.receivers[i].0;
            let share: Decimal = match filter_addr {
                Some(f) => if *f == *addr {
                    Decimal::one()
                } else {
                    Decimal::zero()
                },
                None => self.receivers[i].1,
            };
            if !share.is_zero() {
                match share.checked_mul_floor(amount) {
                    Some(entitled) => {
                        push_send(&mut out, bank_send(addr, denom, entitled));
                    },
                    None => {
                        proof {
                            lemma_plan_none_extends(rs, amount as int, denom@, filter, i as int + 1);
                        }
                        return Err(SplitError::MultiplyOverflow);
                    },
                }
            }
            i = i + 1;
        }
        proof {
            assert(rs.take(i as int) =~= rs);
        }
        Ok(out)
    }

    /// A split with each old receiver renamed to its new address, in the
    /// order of `remaps`; fails where an old address is not a receiver.
    pub fn remap_receivers_to_routers(&self, remaps: &Vec<(String, String)>) -> (r: Result<
        SplitConfig,
        SplitError,
    >)
        ensures
            match r {
                Ok(s) => remapped(self.receivers@, remaps@) == Some(receivers_view(s.receivers@)),
                Err(e) => remapped(self.receivers@, remaps@) is None && e
                    == SplitError::ReceiverNotFound,
            },
    {
        let mut out: Vec<(String, Decimal)> = Vec::new();
        let mut i: usize = 0;
        proof {
            assert(remaps@.take(0) =~= Seq::<(String, String)>::empty());
            assert(receivers_view(out@) =~= Seq::<(Seq<char>, Decimal)>::empty());
        }
        while i < remaps.len()
            invariant
                i <= remaps@.len(),
                remapped(self.receivers@, remaps@.take(i as int)) == Some(receivers_view(out@)),
            decreases remaps@.len() - i,
        {
            proof {
                assert(remaps@.take(i as int + 1).drop_last() =~= remaps@.take(i as int));
            }
            match find_key(&self.receivers, &remaps[i].0) {
                Some(k) => {
                    let ghost before = out@;
                    out.push((remaps[i].1.clone(), self.receivers[k].1));
                    proof {
                        assert(receivers_view(out@) =~= receivers_view(before).push(
                            (remaps@[i as int].1@, self.receivers@[k as int].1),
                        ));
                    }
                },
                None => {
                    proof {
                        lemma_remap_none_extends(self.receivers@, remaps@, i as int + 1);
                    }
                    return Err(SplitError::ReceiverNotFound);
                },
            }
            i = i + 1;
        }
        proof {
            assert(remaps@.take(i as int) =~= remaps@);
        }
        Ok(SplitConfig { receivers: out })
    }

    /// Moves `penalty` from `rq`'s share to `cp`'s, then checks that the
    /// shares still add up to one.
    pub fn apply_penalty(&self, penalty: Decimal, rq: &String, cp: &String) -> (r: Result<
        SplitConfig,
        SplitError,
    >)
        requires
            self.wf(),
        ensures
            match r {
                Ok(s) => penalty_applies(self.receivers@, rq@, cp@, penalty.atomics as int)
                    && s.receivers@ == penalized(self.receivers@, rq@, cp@, penalty.atomics as int)
                    && share_sum(s.receivers@) == DECIMAL_FRACTIONAL,
                Err(_) => !penalty_applies(self.receivers@, rq@, cp@, penalty.atomics as int)
                    || share_sum(penalized(self.receivers@, rq@, cp@, penalty.atomics as int))
                    != DECIMAL_FRACTIONAL,
            },
    {
        if *rq == *cp {
            return Err(SplitError::PenaltyOutOfRange);
        }
        let irq = match find_key(&self.receivers, rq) {
            Some(i) => i,
            None => return Err(SplitError::ReceiverNotFound),
        };
        let icp = match find_key(&self.receivers, cp) {
            Some(i) => i,
            None => return Err(SplitError::ReceiverNotFound),
        };
        if self.receivers[irq].1.atomics < penalty.atomics || self.receivers[icp].1.atomics
            > AMOUNT_MAX - penalty.atomics {
            return Err(SplitError::PenaltyOutOfRange);
        }
        let ghost p = penalty.atomics as int;
        let ghost s = self.receivers@;
        let mut out: Vec<(String, Decimal)> = Vec::new();
        let mut i: usize = 0;
        while i < self.receivers.len()
            invariant
                s == self.receivers@,
                p == penalty.atomics as int,
                i <= s.len(),
                penalty_applies(s, rq@, cp@, p),
                keys_distinct(s),
                out@.len() == i,
                forall|k: int| 0 <= k < i ==> out@[k] == penalized(s, rq@, cp@, p)[k],
            decreases s.len() - i,
        {
            let addr = &self.receivers[i].0;
            let share = self.receivers[i].1.atomics;
            let entry = if *addr == *rq {
                proof {
                    lemma_distinct_lookup(s, rq@, i as int);
                }
                (addr.clone(), Decimal { atomics: share - penalty.atomics })
            } else if *addr == *cp {
                proof {
                    lemma_distinct_lookup(s, cp@, i as int);
                }
                (addr.clone(), Decimal { atomics: share + penalty.atomics })
            } else {
                (addr.clone(), self.receivers[i].1)
            };
            out.push(entry);
            i = i + 1;
        }
        proof {
            assert(out@ =~= penalized(s, rq@, cp@, p));
        }
        let result = SplitConfig { receivers: out };
        match result.validate_shares() {
            Ok(()) => Ok(result),
            Err(e) => Err(e),
        }
    }
}

/// The explicit split of each denomination, and the split for all others.
#[derive(Clone, Debug)]
pub struct DenomSplits {
    pub explicit_splits: Vec<(String, SplitConfig)>,
    pub fallback_split: Option<SplitConfig>,
}

/// The split that applies to `denom`.
pub open spec fn split_for(ds: DenomSplits, denom: Seq<char>) -> Option<SplitConfig> {
    match lookup(ds.explicit_splits@, denom) {
        Some(s) => Some(s),
        None => ds.fallback_split,
    }
}

/// The transfers that distributing `coins` makes: each non-zero coin through
/// the split for its denomination, in order; coins without a split stay.
pub open spec fn dist_plan(
    ds: DenomSplits,
    coins: Seq<Coin>,
    filter: Option<Seq<char>>,
) -> Option<Seq<SendView>>
    decreases coins.len(),
{
    if coins.len() == 0 {
        Some(Seq::<SendView>::empty())
    } else {
        let c = coins.last();
        match dist_plan(ds, coins.drop_last(), filter) {
            None => None,
            Some(prev) => if c.amount == 0 {
                Some(prev)
            } else {
                match split_for(ds, c.denom@) {
                    None => Some(prev),
                    Some(sc) => match transfer_plan(
                        sc.receivers@,
                        c.amount as int,
                        c.denom@,
                        filter,
                    ) {
                        None => None,
                        Some(p) => Some(prev + p),
                    },
                }
            },
        }
    }
}

/// The transfers that the fallback split makes of `coins`, or why it cannot.
pub open spec fn fallback_plan(ds: DenomSplits, coins: Seq<Coin>) -> Result<
    Seq<SendView>,
    SplitError,
> {
    if exists|i: int| 0 <= i < coins.len() && has_key(ds.explicit_splits@, coins[i].denom@) {
        Err(SplitError::UnauthorizedDenomDistribution)
    } else if ds.fallback_split is None {
        Err(SplitError::NoFallbackSplit)
    } else {
        match dist_plan(ds, coins, None) {
            Some(p) => Ok(p),
            None => Err(SplitError::MultiplyOverflow),
        }
    }
}

/// Each explicit split with the penalty moved, denominations kept.
pub open spec fn splits_penalized(
    old: Seq<(String, SplitConfig)>,
    new: Seq<(String, SplitConfig)>,
    rq: Seq<char>,
    cp: Seq<char>,
    p: int,
) -> bool {
    &&& new.len() == old.len()
    &&& forall|i: int|
        0 <= i < old.len() ==> {
            &&& #[trigger] new[i].0@ == old[i].0@
            &&& penalty_applies(old[i].1.receivers@, rq, cp, p)
            &&& new[i].1.receivers@ == penalized(old[i].1.receivers@, rq, cp, p)
            &&& share_sum(new[i].1.receivers@) == DECIMAL_FRACTIONAL
        }
}

impl DenomSplits {
    /// Every split lists each receiver once, and explicit splits name each
    /// denomination once.
    pub open spec fn wf(&self) -> bool {
        &&& keys_distinct(self.explicit_splits@)
        &&& forall|i: int|
            0 <= i < self.explicit_splits@.len() ==> (#[trigger] self.explicit_splits@[i]).1.wf()
        &&& match self.fallback_split {
            Some(f) => f.wf(),
            None => true,
        }
    }

    /// The split for `denom`: its explicit split, else the fallback.
    pub fn split_for(&self, denom: &String) -> (r: Option<&SplitConfig>)
        ensures
            match r {
                Some(s) => split_for(*self, denom@) == Some(*s),
                None => split_for(*self, denom@) is None,
            },
    {
        match find_key(&self.explicit_splits, denom) {
            Some(i) => Some(&self.explicit_splits[i].1),
            None => match &self.fallback_split {
                Some(f) => Some(f),
                None => None,
            },
        }
    }

    fn distribute(&self, coins: &Vec<Coin>, filter: &Option<String>) -> (r: Result<
        Vec<BankSend>,
        SplitError,
    >)
        ensures
            sends_result(r) == dist_plan(*self, coins@, filter_view(*filter)),
            r is Err ==> r == Err::<Vec<BankSend>, SplitError>(SplitError::MultiplyOverflow),
    {
        let mut out: Vec<BankSend> = Vec::new();
        let mut i: usize = 0;
        proof {
            assert(coins@.take(0) =~= Seq::<Coin>::empty());
        }
        while i < coins.len()
            invariant
                i <= coins@.len(),
                dist_plan(*self, coins@.take(i as int), filter_view(*filter)) == Some(
                    sends_view(out@),
                ),
            decreases coins@.len() - i,
        {
            proof {
                assert(coins@.take(i as int + 1).drop_last() =~= coins@.take(i as int));
            }
            let c = &coins[i];
            if c.amount != 0 {
                match self.split_for(&c.denom) {
                    None => {},
                    Some(sc) => {
                        match sc.get_transfer_messages(c.amount, &c.denom, filter) {
                            Ok(msgs) => {
                                let ghost before = out@;
                                let ghost added = msgs@;
                                let mut msgs = msgs;
                                out.append(&mut msgs);
                                proof {
                                    assert(sends_view(out@) =~= sends_view(before) + sends_view(
                                        added,
                                    ));
                                }
                            },
                            Err(e) => {
                                proof {
                                    lemma_dist_none_extends(
                                        *self,
                                        coins@,
                                        filter_view(*filter),
                                        i as int + 1,
                                    );
                                }
                                return Err(e);
                            },
                        }
                    },
                }
            }
            i = i + 1;
        }
        proof {
            assert(coins@.take(i as int) =~= coins@);
        }
        Ok(out)
    }

    /// Transfers that distribute each coin through the split for its
    /// denomination.
    pub fn get_distribution_messages(&self, coins: &Vec<Coin>) -> (r: Result<
        Vec<BankSend>,
        SplitError,
    >)
        ensures
            sends_result(r) == dist_plan(*self, coins@, None),
            r is Err ==> r == Err::<Vec<BankSend>, SplitError>(SplitError::MultiplyOverflow),
    {
        self.distribute(coins, &None)
    }

    /// Transfers that pay `receiver` the whole of each coin whose split
    /// lists it.
    pub fn get_single_receiver_distribution_messages(
        &self,
        coins: &Vec<Coin>,
        receiver: &String,
    ) -> (r: Result<Vec<BankSend>, SplitError>)
        ensures
            sends_result(r) == dist_plan(*self, coins@, Some(receiver@)),
            r is Err ==> r == Err::<Vec<BankSend>, SplitError>(SplitError::MultiplyOverflow),
    {
        let filter = Some(receiver.clone());
        self.distribute(coins, &filter)
    }

    /// Transfers that send coins of denominations without an explicit split
    /// through the fallback split.
    pub fn distribute_fallback(&self, coins: &Vec<Coin>) -> (r: Result<Vec<BankSend>, SplitError>)
        ensures
            match r {
                Ok(v) => fallback_plan(*self, coins@) == Ok::<Seq<SendView>, SplitError>(
                    sends_view(v@),
                ),
                Err(e) => fallback_plan(*self, coins@) == Err::<Seq<SendView>, SplitError>(e),
            },
    {
        let mut i: usize = 0;
        while i < coins.len()
            invariant
                i <= coins@.len(),
                forall|k: int| 0 <= k < i ==> !has_key(self.explicit_splits@, coins@[k].denom@),
            decreases coins@.len() - i,
        {
            if find_key(&self.explicit_splits, &coins[i].denom).is_some() {
                return Err(SplitError::UnauthorizedDenomDistribution);
            }
            i = i + 1;
        }
        if self.fallback_split.is_none() {
            return Err(SplitError::NoFallbackSplit);
        }
        self.get_distribution_messages(coins)
    }

    /// Moves `penalty` from `rq` to `cp` in every explicit split; where
    /// one cannot take it, nothing changes.
    pub fn apply_penalty(&mut self, penalty: Decimal, rq: &String, cp: &String) -> (r: Result<
        (),
        SplitError,
    >)
        requires
            old(self).wf(),
        ensures
            final(self).fallback_split == old(self).fallback_split,
            match r {
                Ok(_) => splits_penalized(
                    old(self).explicit_splits@,
                    final(self).explicit_splits@,
                    rq@,
                    cp@,
                    penalty.atomics as int,
                ),
                Err(_) => *final(self) == *old(self) && exists|i: int|
                    0 <= i < old(self).explicit_splits@.len() && (!penalty_applies(
                        #[trigger] old(self).explicit_splits@[i].1.receivers@,
                        rq@,
                        cp@,
                        penalty.atomics as int,
                    ) || share_sum(
                        penalized(
                            old(self).explicit_splits@[i].1.receivers@,
                            rq@,
                            cp@,
                            penalty.atomics as int,
                        ),
                    ) != DECIMAL_FRACTIONAL),
            },
    {
        let mut out: Vec<(String, SplitConfig)> = Vec::new();
        let mut i: usize = 0;
        while i < self.explicit_splits.len()
            invariant
                self.wf(),
                i <= self.explicit_splits@.len(),
                splits_penalized(
                    self.explicit_splits@.take(i as int),
                    out@,
                    rq@,
                    cp@,
                    penalty.atomics as int,
                ),
            decreases self.explicit_splits@.len() - i,
        {
            let entry = &self.explicit_splits[i];
            assert(entry.1.wf());
            match entry.1.apply_penalty(penalty, rq, cp) {
                Ok(sc) => {
                    out.push((entry.0.clone(), sc));
                },
                Err(e) => {
                    return Err(e);
                },
            }
            i = i + 1;
        }
        proof {
            assert(self.explicit_splits@.take(i as int) =~= self.explicit_splits@);
        }
        self.explicit_splits = out;
        Ok(())
    }
}

proof fn lemma_dist_none_extends(
    ds: DenomSplits,
    coins: Seq<Coin>,
    filter: Option<Seq<char>>,
    i: int,
)
    requires
        0 <= i <= coins.len(),
        dist_plan(ds, coins.take(i), filter) is None,
    ensures
        dist_plan(ds, coins, filter) is None,
    decreases coins.len() - i,
{
    if i < coins.len() {
        let t = coins.drop_last();
        assert(t.take(i) =~= coins.take(i));
        lemma_dist_none_extends(ds, t, filter, i);
    } else {
        assert(coins.take(i) =~= coins);
    }
}

/// Each denomination's split with both parties' receivers renamed to their
/// routers, in the order given; fails where a split lacks either receiver.
pub fn remap_splits(
    splits: &Vec<(String, SplitConfig)>,
    party_a: &(String, String),
    party_b: &(String, String),
) -> (r: Result<Vec<(String, SplitConfig)>, SplitError>)
    ensures
        match r {
            Ok(v) => {
                &&& v@.len() == splits@.len()
                &&& forall|i: int|
                    0 <= i < splits@.len() ==> {
                        &&& (#[trigger] v@[i]).0@ == splits@[i].0@
                        &&& remapped(splits@[i].1.receivers@, seq![*party_a, *party_b]) == Some(
                            receivers_view(v@[i].1.receivers@),
                        )
                    }
            },
            Err(e) => e == SplitError::ReceiverNotFound && exists|i: int|
                0 <= i < splits@.len() && remapped(
                    (#[trigger] splits@[i]).1.receivers@,
                    seq![*party_a, *party_b],
                ) is None,
        },
{
    let remaps: Vec<(String, String)> = vec![
        (party_a.0.clone(), party_a.1.clone()),
        (party_b.0.clone(), party_b.1.clone()),
    ];
    proof {
        assert(remaps@ =~= seq![*party_a, *party_b]);
    }
    let mut out: Vec<(String, SplitConfig)> = Vec::new();
    let mut i: usize = 0;
    while i < splits.len()
        invariant
            remaps@ == seq![*party_a, *party_b],
            i <= splits@.len(),
            out@.len() == i,
            forall|k: int|
                0 <= k < i ==> {
                    &&& (#[trigger] out@[k]).0@ == splits@[k].0@
                    &&& remapped(splits@[k].1.receivers@, remaps@) == Some(
                        receivers_view(out@[k].1.receivers@),
                    )
                },
        decreases splits@.len() - i,
    {
        let remapped_split = match splits[i].1.remap_receivers_to_routers(&remaps) {
            Ok(sc) => sc,
            Err(e) => return Err(e),
        };
        out.push((splits[i].0.clone(), remapped_split));
        i = i + 1;
    }
    Ok(out)
}

/// The filter's address, as characters.
pub open spec fn filter_view(f: Option<String>) -> Option<Seq<char>> {
    match f {
        Some(s) => Some(s@),
        None => None,
    }
}

proof fn lemma_share_sum_prefix(s: Seq<(String, Decimal)>, i: int)
    requires
        0 <= i <= s.len(),
    ensures
        share_sum(s.take(i)) <= share_sum(s),
    decreases s.len() - i,
{
    if i < s.len() {
        lemma_share_sum_prefix(s, i + 1);
        assert(s.take(i + 1).drop_last() =~= s.take(i));
    } else {
        assert(s.take(i) =~= s);
    }
}

proof fn lemma_plan_none_extends(
    rs: Seq<(String, Decimal)>,
    amount: int,
    denom: Seq<char>,
    filter: Option<Seq<char>>,
    i: int,
)
    requires
        0 <= i <= rs.len(),
        transfer_plan(rs.take(i), amount, denom, filter) is None,
    ensures
        transfer_plan(rs, amount, denom, filter) is None,
    decreases rs.len() - i,
{
    if i < rs.len() {
        let t = rs.drop_last();
        assert(t.take(i) =~= rs.take(i));
        lemma_plan_none_extends(t, amount, denom, filter, i);
    } else {
        assert(rs.take(i) =~= rs);
    }
}

proof fn lemma_remap_none_extends(
    s: Seq<(String, Decimal)>,
    remaps: Seq<(String, String)>,
    i: int,
)
    requires
        0 <= i <= remaps.len(),
        remapped(s, remaps.take(i)) is None,
    ensures
        remapped(s, remaps) is None,
    decreases remaps.len() - i,
{
    if i < remaps.len() {
        let t = remaps.drop_last();
        assert(t.take(i) =~= remaps.take(i));
        lemma_remap_none_extends(s, t, i);
    } else {
        assert(remaps.take(i) =~= remaps);
    }
}

/// With distinct keys, the entry for a key is the one that `lookup` finds.
pub proof fn lemma_distinct_lookup(s: Seq<(String, Decimal)>, key: Seq<char>, i: int)
    requires
        keys_distinct(s),
        0 <= i < s.len(),
        s[i].0@ == key,
    ensures
        lookup(s, key) == Some(s[i].1),
{
    crate::keyed::lemma_lookup_at(s, key, i);
}

proof fn lemma_share_sum_nonneg(s: Seq<(String, Decimal)>)
    ensures
        share_sum(s) >= 0,
    decreases s.len(),
{
    if s.len() > 0 {
        lemma_share_sum_nonneg(s.drop_last());
    }
}

/// `floor(amount × e)` for a share `e` of at most one lies within one unit
/// of the exact product and never exceeds `amount`.
pub proof fn lemma_floor_share_bounds(amount: int, e: int)
    requires
        0 <= amount,
        0 <= e <= DECIMAL_FRACTIONAL,
    ensures
        DECIMAL_FRACTIONAL * floor_share(amount, e) <= amount * e,
        amount * e <= DECIMAL_FRACTIONAL * floor_share(amount, e) + DECIMAL_FRACTIONAL - 1,
        0 <= floor_share(amount, e) <= amount,
{
    let f = DECIMAL_FRACTIONAL as int;
    lemma_fundamental_div_mod(amount * e, f);
    assert(0 <= amount * e <= amount * f) by (nonlinear_arith)
        requires
            0 <= amount,
            0 <= e <= f;
    lemma_div_pos_is_pos(amount * e, f);
    let q = floor_share(amount, e);
    assert(q <= amount) by (nonlinear_arith)
        requires
            f * q <= amount * e,
            amount * e <= amount * f,
            f > 0;
}

/// Splitting `amount` among shares that sum to at most one pays every
/// receiver, and pays `amount × Σ shares` up to one unit per receiver.
proof fn lemma_plan_bounds(rs: Seq<(String, Decimal)>, amount: int, denom: Seq<char>)
    requires
        0 <= amount <= AMOUNT_MAX,
        share_sum(rs) <= DECIMAL_FRACTIONAL,
    ensures
        transfer_plan(rs, amount, denom, None) is Some,
        DECIMAL_FRACTIONAL * sends_total(transfer_plan(rs, amount, denom, None).unwrap()) <= amount
            * share_sum(rs),
        amount * share_sum(rs) <= DECIMAL_FRACTIONAL * sends_total(
            transfer_plan(rs, amount, denom, None).unwrap(),
        ) + (DECIMAL_FRACTIONAL - 1) * rs.len(),
    decreases rs.len(),
{
    let f = DECIMAL_FRACTIONAL as int;
    if rs.len() == 0 {
        assert(sends_total(Seq::<SendView>::empty()) == 0);
    } else {
        let init = rs.drop_last();
        let e = rs.last().1.atomics as int;
        lemma_share_sum_nonneg(init);
        lemma_plan_bounds(init, amount, denom);
        let prev = transfer_plan(init, amount, denom, None).unwrap();
        let t0 = sends_total(prev);
        let s0 = share_sum(init);
        let n0 = init.len() as int;
        assert(e <= f);
        lemma_floor_share_bounds(amount, e);
        let q = floor_share(amount, e);
        if e != 0 {
            let p = prev.push((rs.last().0@, denom, q));
            assert(p.drop_last() =~= prev);
            assert(sends_total(p) == t0 + q);
        }
        assert(amount * (s0 + e) == amount * s0 + amount * e) by (nonlinear_arith);
        assert(f * (t0 + q) == f * t0 + f * q) by (nonlinear_arith);
        assert((f - 1) * (n0 + 1) == (f - 1) * n0 + (f - 1)) by (nonlinear_arith);
        assert(0 <= amount * s0) by (nonlinear_arith)
            requires
                0 <= amount,
                0 <= s0;
    }
}

/// A split pays out without overflow when its shares sum to at most one,
/// or when a filter pays one receiver the whole amount.
pub proof fn lemma_plan_some(
    rs: Seq<(String, Decimal)>,
    amount: int,
    denom: Seq<char>,
    filter: Option<Seq<char>>,
)
    requires
        0 <= amount <= AMOUNT_MAX,
        filter is Some || share_sum(rs) <= DECIMAL_FRACTIONAL,
    ensures
        transfer_plan(rs, amount, denom, filter) is Some,
    decreases rs.len(),
{
    if filter is None {
        lemma_plan_bounds(rs, amount, denom);
    } else if rs.len() > 0 {
        lemma_plan_some(rs.drop_last(), amount, denom, filter);
        let e = effective_share(rs.last().0@, rs.last().1, filter);
        lemma_floor_share_bounds(amount, e);
    }
}

/// Distribution through splits whose shares sum to at most one never
/// overflows.
pub proof fn lemma_dist_some(ds: DenomSplits, coins: Seq<Coin>, filter: Option<Seq<char>>)
    requires
        forall|i: int|
            0 <= i < ds.explicit_splits@.len() ==> share_sum(
                (#[trigger] ds.explicit_splits@[i]).1.receivers@,
            ) <= DECIMAL_FRACTIONAL,
        match ds.fallback_split {
            Some(f) => share_sum(f.receivers@) <= DECIMAL_FRACTIONAL,
            None => true,
        },
    ensures
        dist_plan(ds, coins, filter) is Some,
    decreases coins.len(),
{
    if coins.len() > 0 {
        lemma_dist_some(ds, coins.drop_last(), filter);
        let c = coins.last();
        match lookup(ds.explicit_splits@, c.denom@) {
            Some(sc) => {
                crate::keyed::lemma_lookup_member(ds.explicit_splits@, c.denom@);
                let i = choose|i: int|
                    0 <= i < ds.explicit_splits@.len() && ds.explicit_splits@[i].0@ == c.denom@
                        && ds.explicit_splits@[i].1 == sc;
                lemma_plan_some(sc.receivers@, c.amount as int, c.denom@, filter);
            },
            None => {
                if let Some(f) = ds.fallback_split {
                    lemma_plan_some(f.receivers@, c.amount as int, c.denom@, filter);
                }
            },
        }
    }
}

/// Each share is at most the sum of all shares.
pub proof fn lemma_share_le_sum(s: Seq<(String, Decimal)>, k: int)
    requires
        0 <= k < s.len(),
    ensures
        s[k].1.atomics <= share_sum(s),
    decreases s.len(),
{
    lemma_share_sum_nonneg(s.drop_last());
    if k < s.len() - 1 {
        lemma_share_le_sum(s.drop_last(), k);
    }
}

/// Moving a penalty renames no receiver.
pub proof fn lemma_penalized_keys(s: Seq<(String, Decimal)>, rq: Seq<char>, cp: Seq<char>, p: int)
    ensures
        penalized(s, rq, cp, p).len() == s.len(),
        forall|k: int| 0 <= k < s.len() ==> (#[trigger] penalized(s, rq, cp, p)[k]).0 == s[k].0,
{
}

/// Splitting `amount` through shares that sum to one, with no filter, pays
/// out `amount` less a rounding loss smaller than the number of receivers.
pub proof fn lemma_transfer_conservation(split: SplitConfig, amount: u128, denom: Seq<char>)
    requires
        share_sum(split.receivers@) == DECIMAL_FRACTIONAL,
    ensures
        transfer_plan(split.receivers@, amount as int, denom, None) is Some,
        ({
            let paid = sends_total(transfer_plan(split.receivers@, amount as int, denom, None).unwrap());
            &&& paid <= amount
            &&& amount - paid < split.receivers@.len()
        }),
{
    let rs = split.receivers@;
    let f = DECIMAL_FRACTIONAL as int;
    lemma_plan_bounds(rs, amount as int, denom);
    let t = sends_total(transfer_plan(rs, amount as int, denom, None).unwrap());
    let n = rs.len() as int;
    let a = amount as int;
    assert(n >= 1) by {
        if n == 0 {
            assert(share_sum(rs) == 0);
        }
    }
    assert(t <= a) by (nonlinear_arith)
        requires
            f * t <= a * f,
            f > 0;
    assert(a < t + n) by (nonlinear_arith)
        requires
            a * f <= f * t + (f - 1) * n,
            n >= 1,
            f > 0;
}

/// Moving a penalty from one receiver to another and then moving it back
/// gives the split that was there before.
pub proof fn lemma_penalty_round_trip(s: SplitConfig, rq: Seq<char>, cp: Seq<char>, penalty: Decimal)
    requires
        s.wf(),
        penalty_applies(s.receivers@, rq, cp, penalty.atomics as int),
    ensures
        ({
            let t = penalized(s.receivers@, rq, cp, penalty.atomics as int);
            &&& keys_distinct(t)
            &&& penalty_applies(t, cp, rq, penalty.atomics as int)
            &&& penalized(t, cp, rq, penalty.atomics as int) == s.receivers@
            &&& share_sum(t) == DECIMAL_FRACTIONAL ==> share_sum(s.receivers@)
                == DECIMAL_FRACTIONAL
        }),
{
    let rs = s.receivers@;
    let p = penalty.atomics as int;
    let t = penalized(rs, rq, cp, p);
    crate::keyed::lemma_lookup_some(rs, rq);
    crate::keyed::lemma_lookup_some(rs, cp);
    let irq = choose|i: int| 0 <= i < rs.len() && rs[i].0@ == rq;
    let icp = choose|i: int| 0 <= i < rs.len() && rs[i].0@ == cp;
    lemma_distinct_lookup(rs, rq, irq);
    lemma_distinct_lookup(rs, cp, icp);
    assert(keys_distinct(t)) by {
        assert forall|i: int, j: int|
            0 <= i < t.len() && 0 <= j < t.len() && i != j implies t[i].0@ != t[j].0@ by {
            assert(t[i].0 == rs[i].0 && t[j].0 == rs[j].0);
        }
    }
    lemma_distinct_lookup(t, rq, irq);
    lemma_distinct_lookup(t, cp, icp);
    let back = penalized(t, cp, rq, p);
    assert forall|k: int| 0 <= k < rs.len() implies back[k] == rs[k] by {
        if rs[k].0@ == rq {
            assert(k == irq);
        } else if rs[k].0@ == cp {
            assert(k == icp);
        }
    }
    assert(back =~= rs);
    if share_sum(t) == DECIMAL_FRACTIONAL {
        lemma_penalty_sum(rs, rq, cp, p, irq, icp);
    }
}

/// Moving a penalty between two listed receivers keeps the sum of shares.
proof fn lemma_penalty_sum(
    s: Seq<(String, Decimal)>,
    rq: Seq<char>,
    cp: Seq<char>,
    p: int,
    irq: int,
    icp: int,
)
    requires
        keys_distinct(s),
        rq != cp,
        0 <= irq < s.len(),
        0 <= icp < s.len(),
        s[irq].0@ == rq,
        s[icp].0@ == cp,
        p <= s[irq].1.atomics,
        s[icp].1.atomics + p <= AMOUNT_MAX,
        0 <= p,
    ensures
        share_sum(penalized(s, rq, cp, p)) == share_sum(s),
{
    lemma_penalty_sum_prefix(s, rq, cp, p, irq, icp, s.len() as int);
    assert(s.take(s.len() as int) =~= s);
    assert(penalized(s.take(s.len() as int), rq, cp, p) =~= penalized(s, rq, cp, p));
}

proof fn lemma_penalty_sum_prefix(
    s: Seq<(String, Decimal)>,
    rq: Seq<char>,
    cp: Seq<char>,
    p: int,
    irq: int,
    icp: int,
    n: int,
)
    requires
        keys_distinct(s),
        rq != cp,
        0 <= irq < s.len(),
        0 <= icp < s.len(),
        s[irq].0@ == rq,
        s[icp].0@ == cp,
        p <= s[irq].1.atomics,
        s[icp].1.atomics + p <= AMOUNT_MAX,
        0 <= p,
        0 <= n <= s.len(),
    ensures
        share_sum(penalized(s.take(n), rq, cp, p)) == share_sum(s.take(n)) - (if irq < n {
            p
        } else {
            0
        }) + (if icp < n {
            p
        } else {
            0
        }),
    decreases n,
{
    if n > 0 {
        lemma_penalty_sum_prefix(s, rq, cp, p, irq, icp, n - 1);
        assert(s.take(n).drop_last() =~= s.take(n - 1));
        assert(penalized(s.take(n), rq, cp, p).drop_last() =~= penalized(s.take(n - 1), rq, cp, p));
        let k = n - 1;
        if s[k].0@ == rq {
            assert(k == irq);
        } else if s[k].0@ == cp {
            assert(k == icp);
        } else {
            assert(k != irq && k != icp);
        }
    }
}

} // verus!
